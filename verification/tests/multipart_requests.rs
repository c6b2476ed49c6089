use postal::endpoint::Endpoint;
use postal::failure::Fault;
use postal::multipart::{start, FieldReading, MultipartAction, NextField, Opened, Stored};
use postal::submission::{CommandResult, Reply};

fn reading(action: MultipartAction) -> FieldReading {
    match action {
        MultipartAction::ReadField(reading) => reading,
        _ => panic!("no field to read"),
    }
}

fn begin(description: &str) -> FieldReading {
    let endpoint = Endpoint::from_string(description.to_owned());
    match start("/p".to_owned(), endpoint, true) {
        MultipartAction::Open(opening) => {
            reading(opening.opened(Opened::Made { path_is_text: true }))
        },
        _ => panic!("no directory to make"),
    }
}

fn named(name: &str, is_file: bool) -> NextField {
    NextField::Field { name: Some(name.to_owned()), is_file }
}

fn text(action: MultipartAction, value: &str) -> MultipartAction {
    match action {
        MultipartAction::ReadText(reading) => reading.text(Some(value.to_owned())),
        _ => panic!("no text to read"),
    }
}

fn store(action: MultipartAction) -> postal::multipart::Storing {
    match action {
        MultipartAction::Store(storing) => storing,
        _ => panic!("no file to store"),
    }
}

fn exit(code: i32, stdout: &str) -> CommandResult {
    CommandResult::Exited { code: Some(code), stdout: stdout.as_bytes().to_vec(), stderr: Vec::new() }
}

fn refusal(action: MultipartAction) -> (Fault, String) {
    match action {
        MultipartAction::Refuse(failure) => (failure.fault, failure.message),
        _ => panic!("not refused"),
    }
}

#[test]
fn multipart_request_with_text_and_files() {
    let fields = begin(",9,/p,run,title,file -> check,file,file");
    let fields = reading(text(fields.field(named("title", false)), "T"));

    let storing = store(fields.field(named("file", true)));
    assert_eq!((storing.directory(), storing.file_name()), ("file", "a"));
    let validation = match storing.stored(Stored::Done("/tmp/file/a".to_owned())) {
        MultipartAction::Validate(validation) => validation,
        _ => panic!("nothing to validate"),
    };
    assert_eq!(validation.program(), "check");
    assert_eq!(validation.arguments(), &vec!["T".to_owned(), "/tmp/file/a".to_owned()]);
    let (echo, action) = validation.exited(exit(0, ""));
    assert_eq!(echo, None);

    let fields = reading(text(reading(action).field(named("file", false)), "in place"));
    let storing = store(fields.field(named("file", true)));
    assert_eq!((storing.directory(), storing.file_name()), ("file", "c"));
    let fields = reading(storing.stored(Stored::Done("/tmp/file/c".to_owned())));

    let handling = match fields.field(NextField::End) {
        MultipartAction::Handle(handling) => handling,
        _ => panic!("nothing to handle"),
    };
    assert_eq!(handling.program(), "run");
    assert_eq!(
        handling.arguments(),
        &vec![
            "T".to_owned(),
            "/tmp/file/a".to_owned(),
            "in place".to_owned(),
            "/tmp/file/c".to_owned()
        ]
    );
    let (echo, reply) = handling.exited(exit(0, "200\n\nstored\n")).closed(None);
    assert_eq!(echo, None);
    match reply {
        Reply::Respond(response) => assert_eq!((response.status, response.body), (200, "stored\n".to_owned())),
        other => panic!("{other:?}"),
    }
}

#[test]
fn multipart_files_never_share_a_name() {
    let mut description = String::from(",9,/p,run");
    for _ in 0..30 {
        description.push_str(",f");
    }
    let mut fields = begin(&description);
    let mut seen = std::collections::HashSet::new();
    for _ in 0..30 {
        let storing = store(fields.field(named("f", true)));
        assert!(seen.insert(storing.file_name().to_owned()));
        fields = reading(storing.stored(Stored::Done(String::new())));
    }
    assert!(seen.contains("z") && seen.contains("aa"));
}

#[test]
fn multipart_requests_that_do_not_start() {
    let endpoint = || Endpoint::from_string(",9,/p,run".to_owned());
    assert_eq!(
        refusal(start("/p".to_owned(), endpoint(), false)),
        (Fault::BadRequest, "/p: Invalid request to multipart endpoint".to_owned())
    );
    match start("/p".to_owned(), endpoint(), true) {
        MultipartAction::Open(opening) => assert_eq!(
            refusal(opening.opened(Opened::Failed)),
            (
                Fault::InternalServerError,
                "/p: Failed to create a temporary directory for request handling".to_owned()
            )
        ),
        _ => panic!("no directory to make"),
    }
    match start("/p".to_owned(), endpoint(), true) {
        MultipartAction::Open(opening) => {
            let fields = reading(opening.opened(Opened::Made { path_is_text: false }));
            assert_eq!(
                refusal(fields.field(NextField::End)),
                (
                    Fault::InternalServerError,
                    "/p: Failed to get path from temporary directory".to_owned()
                )
            );
        },
        _ => panic!("no directory to make"),
    }
}

#[test]
fn multipart_fields_that_do_not_fit() {
    let unexpected = |key: &str| (Fault::BadRequest, format!("/p: Unexpected parameter '{key}'"));
    assert_eq!(refusal(begin(",9,/p,run,a,b").field(named("b", false))), unexpected("b"));
    assert_eq!(refusal(begin(",9,/p,run").field(named("x", true))), unexpected("x"));
    let fields = reading(text(begin(",9,/p,run,a,b").field(named("a", false)), "1"));
    assert_eq!(
        refusal(fields.field(NextField::End)),
        (Fault::BadRequest, "/p: Field 'b' was missing from request".to_owned())
    );
    assert_eq!(
        refusal(begin(",9,/p,run").field(NextField::Failed)),
        (
            Fault::InternalServerError,
            "/p: Failed to read the next form field from the multipart stream".to_owned()
        )
    );
    assert_eq!(
        refusal(begin(",9,/p,run").field(NextField::Field { name: None, is_file: true })),
        (
            Fault::InternalServerError,
            "/p: Failed to read name of multipart form field".to_owned()
        )
    );
}

#[test]
fn multipart_fields_that_cannot_be_read() {
    let failed = |event: Stored| {
        let action = store(begin(",9,/p,run,a,b").field(named("a", true))).stored(event);
        let (fault, message) = refusal(action);
        assert_eq!(fault, Fault::InternalServerError);
        message
    };
    let path = || "\"/tmp/a\"".to_owned();
    assert_eq!(
        failed(Stored::NotRead),
        "/p: a: Failed to read bytes of field 'a'; file could be too large"
    );
    assert_eq!(
        failed(Stored::NoDirectory(path())),
        "/p: a: Failed to create directory '\"/tmp/a\"'"
    );
    assert_eq!(failed(Stored::NoFile(path())), "/p: a: Failed to create file '\"/tmp/a\"'");
    assert_eq!(
        failed(Stored::NotWritten(path())),
        "/p: a: Failed to write bytes to file '\"/tmp/a\"'"
    );
    assert_eq!(failed(Stored::NotText), "/p: a: Failed to coerce path to string");
    match begin(",9,/p,run,a,b").field(named("a", false)) {
        MultipartAction::ReadText(reading) => assert_eq!(
            refusal(reading.text(None)),
            (
                Fault::InternalServerError,
                "/p: a: Failed to read text of field 'a'".to_owned()
            )
        ),
        _ => panic!("no text to read"),
    }
}

#[test]
fn multipart_validator_that_says_no() {
    let action = text(begin(",9,/p,run,a -> v,b").field(named("a", false)), "1");
    match action {
        MultipartAction::Validate(validation) => {
            let (_, action) = validation.exited(exit(1, ""));
            let message = "/p: a: Validator exited with an unsuccessful status code (1)";
            assert_eq!(refusal(action), (Fault::BadRequest, message.to_owned()));
        },
        _ => panic!("nothing to validate"),
    }
}

#[test]
fn multipart_directory_that_stays() {
    let closing = |result: CommandResult| match begin(",9,/p,run").field(NextField::End) {
        MultipartAction::Handle(handling) => handling.exited(result),
        _ => panic!("nothing to handle"),
    };
    let (echo, reply) = closing(CommandResult::NotRun("gone".to_owned())).closed(Some("\"/tmp/x\"".to_owned()));
    assert_eq!(echo, None);
    match reply {
        Reply::Refuse(failure) => {
            assert_eq!(failure.fault, Fault::InternalServerError);
            assert_eq!(failure.message, "/p: Failed to close temporary directory \"/tmp/x\"");
        },
        other => panic!("{other:?}"),
    }

    let (echo, reply) = closing(CommandResult::NotRun("gone".to_owned())).closed(None);
    assert_eq!(echo, Some("gone".to_owned()));
    match reply {
        Reply::Refuse(failure) => assert_eq!(failure.message, "/p: Command execution returned an error"),
        other => panic!("{other:?}"),
    }
}
