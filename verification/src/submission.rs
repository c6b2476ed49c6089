//! The part of handling a request that does not depend on how the request is encoded: the fields
//! are held against the parameters of the endpoint in their order, and their values become the
//! arguments of the validators and of the handler.

use crate::endpoint;
use crate::endpoint::{Endpoint, EndpointModel, Parameter, ParameterModel};
use crate::failure;
use crate::failure::{Cause, CauseModel, Failure, FailureModel, Fault};
use crate::output;
use crate::output::OutputError;
use crate::response;
use crate::response::{Response, ResponseModel};
use crate::text;
use axum::http::header::MaxSizeReached;
use vstd::prelude::*;

verus! {

// ---------------------------------------------------------------------------------------------
// Commands

/// What came of running a command.
#[derive(Debug)]
pub enum CommandResult {
    /// The command could not be run; this is the error, in words.
    NotRun(String),
    /// The command ran, and ended with an exit code unless something ended it.
    Exited { code: Option<i32>, stdout: Vec<u8>, stderr: Vec<u8> },
}

/// The view of a `CommandResult`.
pub enum CommandModel {
    NotRun(Seq<char>),
    Exited { code: Option<i32>, stdout: Seq<u8>, stderr: Seq<u8> },
}

impl View for CommandResult {
    type V = CommandModel;

    open spec fn view(&self) -> CommandModel {
        match self {
            CommandResult::NotRun(error) => CommandModel::NotRun(error@),
            CommandResult::Exited { code, stdout, stderr } => CommandModel::Exited {
                code: *code,
                stdout: stdout@,
                stderr: stderr@,
            },
        }
    }
}

/// Whether a command did its work: it ran, what it wrote to its error stream is UTF-8, and its exit
/// code is zero.
pub open spec fn passed(result: CommandModel) -> bool {
    result matches CommandModel::Exited { code, stdout, stderr } && vstd::utf8::valid_utf8(stderr)
        && code == Some(0i32)
}

/// Whether a command turned down what it was given: it ran, what it wrote to its error stream is
/// UTF-8, and its exit code is not zero.
pub open spec fn turned_down(result: CommandModel) -> bool {
    result matches CommandModel::Exited { code, stdout, stderr } && vstd::utf8::valid_utf8(stderr)
        && (code matches Some(code) && code != 0)
}

/// What the log is told of a command, whatever comes of the request: why it did not run, behind
/// `label`, or what it wrote to its error stream.
pub open spec fn echo_of(label: Seq<char>, result: CommandModel) -> Option<Seq<char>> {
    match result {
        CommandModel::NotRun(error) => Some(label + error),
        CommandModel::Exited { code, stdout, stderr } => if vstd::utf8::valid_utf8(stderr) {
            output::shown(stderr)
        } else {
            None
        },
    }
}

/// Why the validator of the parameter `name` turns a request down, if it does.
pub open spec fn validator_fault(
    route: Seq<char>,
    name: Seq<char>,
    result: CommandModel,
) -> Option<FailureModel> {
    match result {
        CommandModel::NotRun(_) => Some(
            failure::internal_error(
                route + ": "@ + name + ": Validator execution returned an error"@,
            ),
        ),
        CommandModel::Exited { code, stdout, stderr } => if !vstd::utf8::valid_utf8(stderr) {
            Some(
                failure::caused_error(
                    route + ": "@ + name
                        + ": Failed to write to stderr while processing validator"@,
                    CauseModel::Stderr,
                ),
            )
        } else {
            match code {
                None => Some(
                    failure::internal_error(
                        route + ": "@ + name
                            + ": Validator exited with an indeterminate status code"@,
                    ),
                ),
                Some(code) => if code == 0 {
                    None
                } else {
                    Some(
                        failure::bad_request(
                            route + ": "@ + name
                                + ": Validator exited with an unsuccessful status code ("@
                                + text::decimal(code as int) + ")"@,
                        ),
                    )
                },
            }
        },
    }
}

/// What to make of the result of a validator: what to tell the log, and why the request is turned
/// down, if it is.
pub fn judge_validator(route: &str, name: &str, result: CommandResult) -> (r: (
    Option<String>,
    Option<Failure>,
))
    ensures
        text::text_model(r.0) == echo_of(route@ + ": "@ + name@ + ": "@, result@),
        match r.1 {
            Some(fault) => validator_fault(route@, name@, result@) == Some(fault@),
            None => validator_fault(route@, name@, result@) is None,
        },
{
    match result {
        CommandResult::NotRun(error) => {
            let echo = text::concat2(text::concat4(route, ": ", name, ": ").as_str(), error.as_str());
            let message = text::concat4(
                route,
                ": ",
                name,
                ": Validator execution returned an error",
            );
            (Some(echo), Some(Failure::internal_error(message)))
        },
        CommandResult::Exited { code, stdout: _, stderr } => match output::stderr_text(stderr) {
            Err(e) => {
                let message = text::concat4(
                    route,
                    ": ",
                    name,
                    ": Failed to write to stderr while processing validator",
                );
                (None, Some(Failure::caused_error(message, Cause::Stderr(e))))
            },
            Ok(echo) => match code {
                None => {
                    let message = text::concat4(
                        route,
                        ": ",
                        name,
                        ": Validator exited with an indeterminate status code",
                    );
                    (echo, Some(Failure::internal_error(message)))
                },
                Some(code) => if code == 0 {
                    (echo, None)
                } else {
                    let message = text::concat6(
                        route,
                        ": ",
                        name,
                        ": Validator exited with an unsuccessful status code (",
                        text::decimal_of(code).as_str(),
                        ")",
                    );
                    (echo, Some(Failure::bad_request(message)))
                },
            },
        },
    }
}

/// A request is turned down by a validator if and only if the validator did not do its work.
pub proof fn law_validator_turns_down(route: Seq<char>, name: Seq<char>, result: CommandModel)
    ensures
        validator_fault(route, name, result) is None <==> passed(result),
{
}

/// The answer that the result of the handler asks for.
pub open spec fn handler_answer(route: Seq<char>, result: CommandModel) -> Result<
    ResponseModel,
    FailureModel,
> {
    match result {
        CommandModel::NotRun(_) => Err(
            failure::internal_error(route + ": Command execution returned an error"@),
        ),
        CommandModel::Exited { code, stdout, stderr } => if !vstd::utf8::valid_utf8(stderr) {
            Err(
                failure::caused_error(
                    route + ": Failed to write handler stderr to stderr"@,
                    CauseModel::Stderr,
                ),
            )
        } else {
            match code {
                None => Err(
                    failure::internal_error(
                        route + ": Handle exited with an indeterminate status code"@,
                    ),
                ),
                Some(code) => if code == 0 {
                    output::answer_of(stdout)
                } else {
                    Err(
                        failure::bad_request(
                            route + ": Handle exited with an unsuccessful status code ("@
                                + text::decimal(code as int) + ")"@,
                        ),
                    )
                },
            }
        },
    }
}

/// How many names the map of headers holds when the last header that the result of the handler asks
/// for is put into it. A handler that did not do its work asks for none.
pub open spec fn headers_held(result: CommandModel) -> nat {
    if passed(result) {
        output::headers_held(result->stdout)
    } else {
        0
    }
}

/// A client gets the answer of a handler if and only if the handler has done its work and its output
/// asks for an answer.
pub proof fn law_when_the_answer_counts(route: Seq<char>, result: CommandModel)
    ensures
        handler_answer(route, result) is Ok <==> passed(result) && output::answer_of(
            result->stdout,
        ) is Ok,
        handler_answer(route, result) is Ok ==> handler_answer(route, result) == output::answer_of(
            result->stdout,
        ),
{
}

/// The client is to blame for what came of a command if and only if the command ran, wrote text to
/// its error stream, and ended with an exit code other than zero.
pub proof fn law_whose_fault(route: Seq<char>, name: Seq<char>, result: CommandModel)
    ensures
        (validator_fault(route, name, result) matches Some(fault) && fault.fault
            == Fault::BadRequest) <==> turned_down(result),
        (handler_answer(route, result) matches Err(fault) && fault.fault == Fault::BadRequest)
            <==> turned_down(result),
{
    if passed(result) && output::answer_of(result->stdout) is Err {
        output::law_client_is_not_to_blame(result->stdout);
    }
}

/// How a request ends.
#[derive(Debug)]
pub enum Reply {
    /// The client gets the answer of the handler.
    Respond(Response),
    /// The client is turned down.
    Refuse(Failure),
    /// The answer of the handler has more headers than fit into one.
    TooManyHeaders(MaxSizeReached),
}

impl Reply {
    /// Whether a request ends as `expected`, or for want of room for its headers, where the map holds
    /// `held` names when the last of them is put into it. There is room as long as that is no more
    /// than `response::header_room` tells, and none from `response::header_limit` on.
    pub open spec fn meets(self, expected: Result<ResponseModel, FailureModel>, held: nat) -> bool {
        match self {
            Reply::Respond(answer) => {
                &&& expected == Ok::<ResponseModel, FailureModel>(answer@)
                &&& held < response::header_limit()
            },
            Reply::Refuse(fault) => {
                &&& expected == Err::<ResponseModel, FailureModel>(fault@)
                &&& held < response::header_limit()
            },
            Reply::TooManyHeaders(_) => held > response::header_room(),
        }
    }
}

/// What to make of the result of the handler: what to tell the log, where an error stands behind
/// `label`, and how the request ends.
pub fn judge_handler(route: &str, label: &str, result: CommandResult) -> (r: (
    Option<String>,
    Reply,
))
    ensures
        text::text_model(r.0) == echo_of(label@, result@),
        r.1.meets(handler_answer(route@, result@), headers_held(result@)),
{
    match result {
        CommandResult::NotRun(error) => {
            let echo = text::concat2(label, error.as_str());
            let message = text::concat2(route, ": Command execution returned an error");
            (Some(echo), Reply::Refuse(Failure::internal_error(message)))
        },
        CommandResult::Exited { code, stdout, stderr } => match output::stderr_text(stderr) {
            Err(e) => {
                let message = text::concat2(route, ": Failed to write handler stderr to stderr");
                (None, Reply::Refuse(Failure::caused_error(message, Cause::Stderr(e))))
            },
            Ok(echo) => match code {
                None => {
                    let message = text::concat2(
                        route,
                        ": Handle exited with an indeterminate status code",
                    );
                    (echo, Reply::Refuse(Failure::internal_error(message)))
                },
                Some(code) => if code == 0 {
                    match output::status_headers_and_content(stdout) {
                        Ok(answer) => (echo, Reply::Respond(answer)),
                        Err(OutputError::Failed(fault)) => (echo, Reply::Refuse(fault)),
                        Err(OutputError::TooManyHeaders(e)) => (echo, Reply::TooManyHeaders(e)),
                    }
                } else {
                    let message = text::concat4(
                        route,
                        ": Handle exited with an unsuccessful status code (",
                        text::decimal_of(code).as_str(),
                        ")",
                    );
                    (echo, Reply::Refuse(Failure::bad_request(message)))
                },
            },
        },
    }
}

// ---------------------------------------------------------------------------------------------
// Submissions

/// A request on its way to the handler: what the endpoint asks for, and the values of the fields
/// so far.
pub struct Submission {
    route: String,
    command: String,
    parameters: Vec<Parameter>,
    arguments: Vec<String>,
}

/// The view of a `Submission`.
#[verifier::ext_equal]
pub struct SubmissionModel {
    pub route: Seq<char>,
    pub command: Seq<char>,
    pub parameters: Seq<ParameterModel>,
    pub arguments: Seq<Seq<char>>,
}

impl View for Submission {
    type V = SubmissionModel;

    closed spec fn view(&self) -> SubmissionModel {
        SubmissionModel {
            route: self.route@,
            command: self.command@,
            parameters: endpoint::parameter_models(self.parameters@),
            arguments: text::texts(self.arguments@),
        }
    }
}

/// A request to `route` of which no field has been read.
pub open spec fn fresh(route: Seq<char>, endpoint: EndpointModel) -> SubmissionModel {
    SubmissionModel {
        route,
        command: endpoint.command,
        parameters: endpoint.parameters,
        arguments: Seq::empty(),
    }
}

impl SubmissionModel {
    /// The parameter that the next field is held against.
    pub open spec fn due(self) -> Option<ParameterModel> {
        if self.arguments.len() < self.parameters.len() {
            Some(self.parameters[self.arguments.len() as int])
        } else {
            None
        }
    }

    /// How many of the parameters have been met.
    pub open spec fn read(self) -> int {
        if self.arguments.len() < self.parameters.len() {
            self.arguments.len() as int
        } else {
            self.parameters.len() as int
        }
    }

    /// The submission with the value of one more field.
    pub open spec fn with(self, value: Seq<char>) -> SubmissionModel {
        SubmissionModel { arguments: self.arguments.push(value), ..self }
    }

    /// The failure of a request that has a field `key` where another one is due.
    pub open spec fn unexpected_parameter(self, key: Seq<char>) -> FailureModel {
        failure::bad_request(self.route + ": Unexpected parameter '"@ + key + "'"@)
    }

    /// The failure of a request that has a field `key` where none is due.
    pub open spec fn unexpected_field(self, key: Seq<char>) -> FailureModel {
        failure::bad_request(self.route + ": Unexpected field '"@ + key + "'"@)
    }

    /// The failure of a request that ends before the field `name`.
    pub open spec fn missing_field(self, name: Seq<char>) -> FailureModel {
        failure::bad_request(self.route + ": Field '"@ + name + "' was missing from request"@)
    }
}

/// How many of the first `n` parameters have the name `name`.
pub open spec fn occurrences(parameters: Seq<ParameterModel>, n: int, name: Seq<char>) -> nat
    decreases n,
{
    if n <= 0 {
        0
    } else {
        occurrences(parameters, n - 1, name) + if parameters[n - 1].name == name {
            1nat
        } else {
            0nat
        }
    }
}

/// How many of the first `n` parameters have a validator.
pub open spec fn validators(parameters: Seq<ParameterModel>, n: int) -> nat
    decreases n,
{
    if n <= 0 {
        0
    } else {
        validators(parameters, n - 1) + if parameters[n - 1].validator is Some {
            1nat
        } else {
            0nat
        }
    }
}

/// Among more parameters there are no fewer validators.
pub proof fn lemma_validators_grow(parameters: Seq<ParameterModel>, m: int, n: int)
    requires
        0 <= m <= n,
    ensures
        validators(parameters, m) <= validators(parameters, n),
    decreases n,
{
    if m < n {
        lemma_validators_grow(parameters, m, n - 1);
    }
}

/// A name that occurs again has occurred more often by then.
pub proof fn lemma_occurrences_grow(parameters: Seq<ParameterModel>, m: int, n: int)
    requires
        0 <= m < n <= parameters.len(),
    ensures
        occurrences(parameters, m, parameters[m].name) < occurrences(
            parameters,
            n,
            parameters[m].name,
        ),
    decreases n,
{
    if m < n - 1 {
        lemma_occurrences_grow(parameters, m, n - 1);
    }
}

impl Submission {
    /// A request to `route` of which no field has been read.
    pub fn new(route: String, endpoint: Endpoint) -> (submission: Submission)
        ensures
            submission@ == fresh(route@, endpoint@),
    {
        let submission = Submission {
            route,
            command: endpoint.command,
            parameters: endpoint.parameters,
            arguments: Vec::new(),
        };
        assert(submission@.arguments == Seq::<Seq<char>>::empty());
        submission
    }

    /// The path of the request.
    pub fn route(&self) -> (route: &str)
        ensures
            route@ == self@.route,
    {
        self.route.as_str()
    }

    /// The command that handles the request.
    pub fn command(&self) -> (command: &str)
        ensures
            command@ == self@.command,
    {
        self.command.as_str()
    }

    /// The values of the fields so far.
    pub fn arguments(&self) -> (arguments: &Vec<String>)
        ensures
            text::texts(arguments@) == self@.arguments,
    {
        &self.arguments
    }

    /// How many fields have been read.
    pub fn given(&self) -> (n: usize)
        ensures
            n == self@.arguments.len(),
    {
        assert(self@.arguments.len() == self.arguments@.len());
        self.arguments.len()
    }

    /// The parameter that the next field is held against.
    pub fn due(&self) -> (due: Option<Parameter>)
        ensures
            match due {
                Some(parameter) => self@.due() == Some(parameter@),
                None => self@.due() is None,
            },
    {
        assert(self@.arguments.len() == self.arguments@.len());
        assert(self@.parameters.len() == self.parameters@.len());
        if self.arguments.len() < self.parameters.len() {
            Some(self.parameters[self.arguments.len()].clone())
        } else {
            None
        }
    }

    /// Takes the value of one more field.
    pub fn give(&mut self, value: String)
        ensures
            final(self)@ == old(self)@.with(value@),
    {
        self.arguments.push(value);
        assert(self@.arguments == old(self)@.arguments.push(value@));
    }

    /// How many fields with the name `name` have been read.
    pub fn count(&self, name: &String) -> (n: usize)
        ensures
            n == occurrences(self@.parameters, self@.read(), name@),
    {
        assert(self@.arguments.len() == self.arguments@.len());
        assert(self@.parameters.len() == self.parameters@.len());
        let read: usize = if self.arguments.len() < self.parameters.len() {
            self.arguments.len()
        } else {
            self.parameters.len()
        };
        let mut n: usize = 0;
        for i in 0..read
            invariant
                n <= i,
                read <= self.parameters@.len(),
                self@.parameters == endpoint::parameter_models(self.parameters@),
                n == occurrences(self@.parameters, i as int, name@),
        {
            if self.parameters[i].name == *name {
                n += 1;
            }
        }
        n
    }

    /// The failure of a request that has a field `key` where another one is due.
    pub fn unexpected_parameter(&self, key: &str) -> (fault: Failure)
        ensures
            fault@ == self@.unexpected_parameter(key@),
    {
        Failure::bad_request(
            text::concat4(self.route.as_str(), ": Unexpected parameter '", key, "'"),
        )
    }

    /// The failure of a request that has a field `key` where none is due.
    pub fn unexpected_field(&self, key: &str) -> (fault: Failure)
        ensures
            fault@ == self@.unexpected_field(key@),
    {
        Failure::bad_request(text::concat4(self.route.as_str(), ": Unexpected field '", key, "'"))
    }

    /// The failure of a request that ends before the field `name`.
    pub fn missing_field(&self, name: &str) -> (fault: Failure)
        ensures
            fault@ == self@.missing_field(name@),
    {
        Failure::bad_request(
            text::concat4(self.route.as_str(), ": Field '", name, "' was missing from request"),
        )
    }
}

// ---------------------------------------------------------------------------------------------
// What comes of commands and fields

/// The view of what came of a command is what came of it.
pub proof fn law_view(result: CommandResult)
    ensures
        result matches CommandResult::NotRun(error) ==> result@ == CommandModel::NotRun(error@),
        result matches CommandResult::Exited { code, stdout, stderr } ==> result@
            == (CommandModel::Exited { code, stdout: stdout@, stderr: stderr@ }),
{
}

/// A validator lets a request go on if and only if it ran, wrote UTF-8 to its error stream and exited
/// with code zero. Another exit code is a bad request, anything else an internal error, and the log
/// is told the route, the parameter and the reason.
pub proof fn law_validator(
    route: Seq<char>,
    name: Seq<char>,
    error: Seq<char>,
    code: Option<i32>,
    stdout: Seq<u8>,
    stderr: Seq<u8>,
)
    ensures
        validator_fault(route, name, CommandModel::NotRun(error)) == Some(
            FailureModel {
                fault: Fault::InternalServerError,
                message: route + ": "@ + name + ": Validator execution returned an error"@,
                cause: None,
            },
        ),
        ({
            let fault = validator_fault(
                route,
                name,
                CommandModel::Exited { code, stdout, stderr },
            );
            let is_text = vstd::utf8::valid_utf8(stderr);
            &&& fault is None <==> is_text && code == Some(0i32)
            &&& !is_text ==> fault == Some(
                FailureModel {
                    fault: Fault::InternalServerError,
                    message: route + ": "@ + name
                        + ": Failed to write to stderr while processing validator"@,
                    cause: Some(CauseModel::Stderr),
                },
            )
            &&& is_text && code is None ==> fault == Some(
                FailureModel {
                    fault: Fault::InternalServerError,
                    message: route + ": "@ + name
                        + ": Validator exited with an indeterminate status code"@,
                    cause: None,
                },
            )
            &&& is_text && (code matches Some(c) && c != 0) ==> fault == Some(
                FailureModel {
                    fault: Fault::BadRequest,
                    message: route + ": "@ + name
                        + ": Validator exited with an unsuccessful status code ("@ + text::decimal(
                        code->0 as int,
                    ) + ")"@,
                    cause: None,
                },
            )
        }),
{
}

/// The answer of a handler counts if and only if it ran, wrote UTF-8 to its error stream and exited
/// with code zero; it is then what its output asks for. Another exit code is a bad request, anything
/// else an internal error, and the log is told the route and the reason.
pub proof fn law_handler(
    route: Seq<char>,
    error: Seq<char>,
    code: Option<i32>,
    stdout: Seq<u8>,
    stderr: Seq<u8>,
)
    ensures
        handler_answer(route, CommandModel::NotRun(error)) == Err::<ResponseModel, _>(
            FailureModel {
                fault: Fault::InternalServerError,
                message: route + ": Command execution returned an error"@,
                cause: None,
            },
        ),
        headers_held(CommandModel::NotRun(error)) == 0,
        ({
            let result = CommandModel::Exited { code, stdout, stderr };
            let is_text = vstd::utf8::valid_utf8(stderr);
            &&& is_text && code == Some(0i32) ==> handler_answer(route, result)
                == output::answer_of(stdout) && headers_held(result) == output::headers_held(stdout)
            &&& !(is_text && code == Some(0i32)) ==> handler_answer(route, result) is Err
                && headers_held(result) == 0
            &&& !is_text ==> handler_answer(route, result) == Err::<ResponseModel, _>(
                FailureModel {
                    fault: Fault::InternalServerError,
                    message: route + ": Failed to write handler stderr to stderr"@,
                    cause: Some(CauseModel::Stderr),
                },
            )
            &&& is_text && code is None ==> handler_answer(route, result) == Err::<
                ResponseModel,
                _,
            >(
                FailureModel {
                    fault: Fault::InternalServerError,
                    message: route + ": Handle exited with an indeterminate status code"@,
                    cause: None,
                },
            )
            &&& is_text && (code matches Some(c) && c != 0) ==> handler_answer(route, result)
                == Err::<ResponseModel, _>(
                FailureModel {
                    fault: Fault::BadRequest,
                    message: route + ": Handle exited with an unsuccessful status code ("@
                        + text::decimal(code->0 as int) + ")"@,
                    cause: None,
                },
            )
        }),
{
}

/// The log is told why a command did not run, behind its label, or what it wrote to its error stream,
/// whole, white space around it aside; and nothing where that is empty or is not UTF-8.
pub proof fn law_echo(
    label: Seq<char>,
    error: Seq<char>,
    code: Option<i32>,
    stdout: Seq<u8>,
    stderr: Seq<u8>,
)
    ensures
        echo_of(label, CommandModel::NotRun(error)) == Some(label + error),
        ({
            let echo = echo_of(label, CommandModel::Exited { code, stdout, stderr });
            let shown = text::trimmed(vstd::utf8::decode_utf8(stderr));
            &&& !vstd::utf8::valid_utf8(stderr) ==> echo is None
            &&& vstd::utf8::valid_utf8(stderr) && shown.len() == 0 ==> echo is None
            &&& vstd::utf8::valid_utf8(stderr) && shown.len() > 0 ==> echo == Some(shown)
        }),
{
}

/// How a request ends is what is expected of it, wherever there is sure to be room for its headers, and
/// want of room where there is sure to be none.
pub proof fn law_reply(
    reply: Reply,
    expected: Result<ResponseModel, FailureModel>,
    held: nat,
)
    requires
        reply.meets(expected, held),
    ensures
        reply matches Reply::Respond(answer) ==> expected == Ok::<_, FailureModel>(answer@),
        reply matches Reply::Refuse(fault) ==> expected == Err::<ResponseModel, _>(fault@),
        held <= 6553 ==> !(reply is TooManyHeaders),
        held >= 24576 ==> reply is TooManyHeaders,
{
}

/// A request starts with the command and the parameters of its endpoint, as they are, and with no
/// values.
pub proof fn law_fresh(route: Seq<char>, endpoint: EndpointModel)
    ensures
        fresh(route, endpoint).route == route,
        fresh(route, endpoint).command == endpoint.command,
        fresh(route, endpoint).parameters == endpoint.parameters,
        fresh(route, endpoint).arguments == Seq::<Seq<char>>::empty(),
{
}

/// The value of one more field becomes the last argument, as it is, and nothing else changes. The next
/// field is held against the first parameter that has no value yet.
pub proof fn law_fields_in_order(submission: SubmissionModel, value: Seq<char>)
    ensures
        submission.with(value).arguments == submission.arguments.push(value),
        submission.with(value).route == submission.route,
        submission.with(value).command == submission.command,
        submission.with(value).parameters == submission.parameters,
        submission.due() is Some <==> submission.arguments.len() < submission.parameters.len(),
        submission.due() is Some ==> submission.due() == Some(
            submission.parameters[submission.arguments.len() as int],
        ),
        submission.read() <= submission.arguments.len(),
        submission.read() <= submission.parameters.len(),
        submission.read() == submission.arguments.len() || submission.read()
            == submission.parameters.len(),
{
}

/// Parameters are counted right: by their name, and by whether they have a validator.
pub proof fn law_counts(parameters: Seq<ParameterModel>, n: int, name: Seq<char>)
    requires
        0 <= n <= parameters.len(),
    ensures
        occurrences(parameters, n, name) == parameters.take(n).filter(
            |p: ParameterModel| p.name == name,
        ).len(),
        validators(parameters, n) == parameters.take(n).filter(
            |p: ParameterModel| p.validator is Some,
        ).len(),
    decreases n,
{
    reveal(Seq::filter);
    if n > 0 {
        law_counts(parameters, n - 1, name);
        assert(parameters.take(n).drop_last() == parameters.take(n - 1));
    }
}

} // verus!
