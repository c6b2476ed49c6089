use postal::endpoint::Endpoint;
use postal::failure::{Cause, Fault};
use postal::submission::{judge_handler, judge_validator, CommandResult, Reply};
use postal::urlencoded::{UrlEncodedAction, UrlEncodedRequest};

fn endpoint(description: &str) -> Endpoint {
    Endpoint::from_string(description.to_owned())
}

fn form(fields: &[(&str, &str)]) -> Vec<(String, String)> {
    fields.iter().map(|(k, v)| (k.to_string(), v.to_string())).collect()
}

fn begin(description: &str, fields: &[(&str, &str)]) -> UrlEncodedAction {
    UrlEncodedRequest::new("/p".to_owned(), endpoint(description), form(fields)).advance()
}

fn exit(code: i32) -> CommandResult {
    CommandResult::Exited { code: Some(code), stdout: Vec::new(), stderr: Vec::new() }
}

fn refusal(action: UrlEncodedAction) -> (Fault, String) {
    match action {
        UrlEncodedAction::Reply(Reply::Refuse(failure)) => (failure.fault, failure.message),
        _ => panic!("not refused"),
    }
}

fn validator(action: UrlEncodedAction) -> postal::urlencoded::UrlEncodedValidation {
    match action {
        UrlEncodedAction::Validate(validation) => validation,
        _ => panic!("nothing to validate"),
    }
}

fn handler(action: UrlEncodedAction) -> postal::urlencoded::UrlEncodedHandling {
    match action {
        UrlEncodedAction::Handle(handling) => handling,
        _ => panic!("nothing to handle"),
    }
}

#[test]
fn urlencoded_without_validators() {
    let handling = handler(begin(",9,/p,run,a,b", &[("a", "1"), ("b", "2")]));
    assert_eq!(handling.program(), "run");
    assert_eq!(handling.arguments(), &vec!["1".to_owned(), "2".to_owned()]);
    let (echo, reply) = handling.conclude(CommandResult::Exited {
        code: Some(0),
        stdout: b"202\n\nthanks".to_vec(),
        stderr: b" note \n".to_vec(),
    });
    assert_eq!(echo, Some("note".to_owned()));
    match reply {
        Reply::Respond(response) => {
            assert_eq!(response.status, 202);
            assert_eq!(response.body, "thanks\n");
        },
        other => panic!("{other:?}"),
    }
}

#[test]
fn urlencoded_without_parameters() {
    let handling = handler(begin(",9,/p,run", &[]));
    assert!(handling.arguments().is_empty());
    assert_eq!(
        refusal(begin(",9,/p,run", &[("a", "1")])),
        (Fault::BadRequest, "/p: Unexpected field 'a'".to_owned())
    );
}

#[test]
fn urlencoded_validators_run_in_order() {
    let fields = [("a", "1"), ("b", "2"), ("c", "3")];
    let first = validator(begin(",9,/p,run,a -> va,b,c -> vc", &fields));
    assert_eq!(first.program(), "va");
    assert_eq!(first.arguments(), &vec!["1".to_owned()]);
    let (echo, action) = first.resume(exit(0));
    assert_eq!(echo, None);
    let second = validator(action);
    assert_eq!(second.program(), "vc");
    assert_eq!(second.arguments(), &vec!["1".to_owned(), "2".to_owned(), "3".to_owned()]);
    let (_, action) = second.resume(exit(0));
    assert_eq!(handler(action).arguments().len(), 3);
}

#[test]
fn urlencoded_fields_that_do_not_fit() {
    assert_eq!(
        refusal(begin(",9,/p,run,a,b", &[("b", "1"), ("a", "2")])),
        (Fault::BadRequest, "/p: Unexpected parameter 'b'".to_owned())
    );
    assert_eq!(
        refusal(begin(",9,/p,run,a,b", &[("a", "1")])),
        (Fault::BadRequest, "/p: Field 'b' was missing from request".to_owned())
    );
    assert_eq!(
        refusal(begin(",9,/p,run,a,b", &[("a", "1"), ("b", "2"), ("c", "3")])),
        (Fault::BadRequest, "/p: Unexpected field 'c'".to_owned())
    );
}

#[test]
fn urlencoded_validator_that_says_no() {
    let start = || validator(begin(",9,/p,run,a -> v,b", &[("a", "1"), ("b", "2")]));

    let (_, action) = start().resume(exit(3));
    let message = "/p: a: Validator exited with an unsuccessful status code (3)";
    assert_eq!(refusal(action), (Fault::BadRequest, message.to_owned()));

    let (echo, action) = start().resume(CommandResult::Exited {
        code: None,
        stdout: Vec::new(),
        stderr: b"killed".to_vec(),
    });
    assert_eq!(echo, Some("killed".to_owned()));
    let message = "/p: a: Validator exited with an indeterminate status code";
    assert_eq!(refusal(action), (Fault::InternalServerError, message.to_owned()));

    let (echo, action) = start().resume(CommandResult::NotRun("gone".to_owned()));
    assert_eq!(echo, Some("/p: a: gone".to_owned()));
    let message = "/p: a: Validator execution returned an error";
    assert_eq!(refusal(action), (Fault::InternalServerError, message.to_owned()));

    let (echo, action) = start().resume(CommandResult::Exited {
        code: Some(0),
        stdout: Vec::new(),
        stderr: vec![0xff],
    });
    assert_eq!(echo, None);
    match action {
        UrlEncodedAction::Reply(Reply::Refuse(failure)) => {
            assert_eq!(failure.fault, Fault::InternalServerError);
            assert_eq!(
                failure.message,
                "/p: a: Failed to write to stderr while processing validator"
            );
            assert!(matches!(failure.cause, Some(Cause::Stderr(_))));
        },
        _ => panic!("not refused"),
    }
}

#[test]
fn urlencoded_handler_that_fails() {
    let start = || handler(begin(",9,/p,run", &[]));
    let ended = |result: CommandResult| match start().conclude(result) {
        (echo, Reply::Refuse(failure)) => (echo, failure.fault, failure.message),
        _ => panic!("not refused"),
    };

    assert_eq!(
        ended(exit(-2)),
        (
            None,
            Fault::BadRequest,
            "/p: Handle exited with an unsuccessful status code (-2)".to_owned()
        )
    );
    assert_eq!(
        ended(CommandResult::Exited { code: None, stdout: Vec::new(), stderr: Vec::new() }),
        (
            None,
            Fault::InternalServerError,
            "/p: Handle exited with an indeterminate status code".to_owned()
        )
    );
    assert_eq!(
        ended(CommandResult::NotRun("gone".to_owned())),
        (
            Some("/p: gone".to_owned()),
            Fault::InternalServerError,
            "/p: Command execution returned an error".to_owned()
        )
    );
    assert_eq!(
        ended(CommandResult::Exited { code: Some(0), stdout: Vec::new(), stderr: vec![0xff] }),
        (
            None,
            Fault::InternalServerError,
            "/p: Failed to write handler stderr to stderr".to_owned()
        )
    );
    assert_eq!(
        ended(exit(0)),
        (None, Fault::InternalServerError, "Command returned no output".to_owned())
    );
}

#[test]
fn whose_fault_it_is_what_a_command_came_to() {
    let results = || {
        vec![
            (exit(1), true),
            (exit(-1), true),
            (exit(0), false),
            (CommandResult::NotRun("gone".to_owned()), false),
            (CommandResult::Exited { code: None, stdout: Vec::new(), stderr: Vec::new() }, false),
            (CommandResult::Exited { code: Some(1), stdout: Vec::new(), stderr: vec![0xff] }, false),
        ]
    };
    for (result, blamed) in results() {
        let fault = judge_validator("/p", "a", result).1.map(|failure| failure.fault);
        assert_eq!(fault == Some(Fault::BadRequest), blamed);
    }
    for (result, blamed) in results() {
        match judge_handler("/p", "", result).1 {
            Reply::Refuse(failure) => assert_eq!(failure.fault == Fault::BadRequest, blamed),
            _ => panic!("not refused"),
        }
    }
}

#[test]
fn the_answer_of_a_handler_counts_once_it_has_done_its_work() {
    let ended = |code: i32| {
        let result = CommandResult::Exited {
            code: Some(code),
            stdout: b"202\n\ndone\n".to_vec(),
            stderr: Vec::new(),
        };
        judge_handler("/p", "", result).1
    };
    match ended(0) {
        Reply::Respond(response) => {
            assert_eq!((response.status, response.body.as_str()), (202, "done\n"));
        },
        _ => panic!("not answered"),
    }
    assert!(matches!(ended(1), Reply::Refuse(_)));
}
