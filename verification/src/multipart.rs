//! Requests with a multipart form, whose fields come in one after the other and may be files.
//!
//! A request is a sequence of things to do: to make a temporary directory, to read the next field,
//! to store a file there, to run the validators and the handler, and to remove the directory. The
//! caller does each and hands back what came of it.

use crate::endpoint::{Endpoint, EndpointModel, ParameterModel};
use crate::failure;
use crate::failure::{CauseModel, Failure, FailureModel, Fault};
use crate::naming;
use crate::output;
use crate::response::ResponseModel;
use crate::submission;
use crate::submission::{CommandModel, CommandResult, Reply, Submission, SubmissionModel};
use crate::text;
use vstd::prelude::*;

verus! {

// ---------------------------------------------------------------------------------------------
// What comes in

/// What came of making the temporary directory.
pub enum Opened {
    Failed,
    /// The directory is there; its path is text, or is not.
    Made { path_is_text: bool },
}

/// What came of reading the next field.
pub enum NextField {
    Failed,
    /// There are no more fields.
    End,
    /// A field. It has a name unless the client left it out, and is a file if it has a content type.
    Field { name: Option<String>, is_file: bool },
}

/// The view of a `NextField`.
pub enum NextFieldModel {
    Failed,
    End,
    Field { name: Option<Seq<char>>, is_file: bool },
}

impl View for NextField {
    type V = NextFieldModel;

    open spec fn view(&self) -> NextFieldModel {
        match self {
            NextField::Failed => NextFieldModel::Failed,
            NextField::End => NextFieldModel::End,
            NextField::Field { name, is_file } => NextFieldModel::Field {
                name: text::text_model(*name),
                is_file: *is_file,
            },
        }
    }
}

/// What came of storing a file. A path is given as the log shows it.
pub enum Stored {
    /// The content of the field could not be read.
    NotRead,
    /// The directory for the file could not be made.
    NoDirectory(String),
    /// The file could not be made.
    NoFile(String),
    /// The file could not be written.
    NotWritten(String),
    /// The path of the file is not text.
    NotText,
    /// The file is there, under this path.
    Done(String),
}

/// The view of a `Stored`.
pub enum StoredModel {
    NotRead,
    NoDirectory(Seq<char>),
    NoFile(Seq<char>),
    NotWritten(Seq<char>),
    NotText,
    Done(Seq<char>),
}

impl View for Stored {
    type V = StoredModel;

    open spec fn view(&self) -> StoredModel {
        match self {
            Stored::NotRead => StoredModel::NotRead,
            Stored::NoDirectory(path) => StoredModel::NoDirectory(path@),
            Stored::NoFile(path) => StoredModel::NoFile(path@),
            Stored::NotWritten(path) => StoredModel::NotWritten(path@),
            Stored::NotText => StoredModel::NotText,
            Stored::Done(path) => StoredModel::Done(path@),
        }
    }
}

/// Anything that comes in.
pub enum Event {
    Opened(Opened),
    Field(NextFieldModel),
    Stored(StoredModel),
    /// The content of a field that is no file, unless it could not be read.
    Text(Option<Seq<char>>),
    Command(CommandModel),
}

// ---------------------------------------------------------------------------------------------
// What comes next

/// What comes next, as a model.
#[verifier::ext_equal]
pub enum MultipartModel {
    /// To make the temporary directory.
    Open(SubmissionModel),
    /// To read the next field.
    ReadField { submission: SubmissionModel, path_is_text: bool },
    /// To store the field `name` as the file `file` in the directory `name`.
    Store { submission: SubmissionModel, path_is_text: bool, name: Seq<char>, file: Seq<char> },
    /// To read the field `name` as text.
    ReadText { submission: SubmissionModel, path_is_text: bool, name: Seq<char> },
    /// To run the validator of the parameter `name`.
    Validate {
        submission: SubmissionModel,
        path_is_text: bool,
        name: Seq<char>,
        validator: Seq<char>,
    },
    /// To run the handler.
    Handle(SubmissionModel),
    /// To remove the temporary directory; the handler has come to `result`.
    Close { submission: SubmissionModel, result: CommandModel },
    /// To turn the client down.
    Refuse(FailureModel),
}

/// The failure of a request that is not multipart.
pub open spec fn not_multipart(route: Seq<char>) -> FailureModel {
    failure::bad_request(route + ": Invalid request to multipart endpoint"@)
}

/// Where a request to `route` starts.
pub open spec fn started(start: SubmissionModel, is_multipart: bool) -> MultipartModel {
    if is_multipart {
        MultipartModel::Open(start)
    } else {
        MultipartModel::Refuse(not_multipart(start.route))
    }
}

/// Where a request stands after an attempt to make the temporary directory.
pub open spec fn opened(submission: SubmissionModel, event: Opened) -> MultipartModel {
    match event {
        Opened::Failed => MultipartModel::Refuse(
            failure::internal_error(
                submission.route
                    + ": Failed to create a temporary directory for request handling"@,
            ),
        ),
        Opened::Made { path_is_text } => MultipartModel::ReadField { submission, path_is_text },
    }
}

/// Where a request stands after its last field.
pub open spec fn ended(submission: SubmissionModel, path_is_text: bool) -> MultipartModel {
    match submission.due() {
        Some(parameter) => MultipartModel::Refuse(submission.missing_field(parameter.name)),
        None => if path_is_text {
            MultipartModel::Handle(submission)
        } else {
            MultipartModel::Refuse(
                failure::internal_error(
                    submission.route + ": Failed to get path from temporary directory"@,
                ),
            )
        },
    }
}

/// The name of the file for the next field, which is the parameter `name`. The first field of a
/// name is stored as `a`, the second one as `b`, and so on.
pub open spec fn file_for(submission: SubmissionModel, name: Seq<char>) -> Seq<char> {
    naming::name_of(submission::occurrences(submission.parameters, submission.read(), name))
}

/// Where a request stands after an attempt to read the next field.
pub open spec fn field_read(
    submission: SubmissionModel,
    path_is_text: bool,
    event: NextFieldModel,
) -> MultipartModel {
    match event {
        NextFieldModel::Failed => MultipartModel::Refuse(
            failure::internal_error(
                submission.route
                    + ": Failed to read the next form field from the multipart stream"@,
            ),
        ),
        NextFieldModel::End => ended(submission, path_is_text),
        NextFieldModel::Field { name: None, is_file } => MultipartModel::Refuse(
            failure::internal_error(
                submission.route + ": Failed to read name of multipart form field"@,
            ),
        ),
        NextFieldModel::Field { name: Some(key), is_file } => match submission.due() {
            None => MultipartModel::Refuse(submission.unexpected_parameter(key)),
            Some(parameter) => if parameter.name != key {
                MultipartModel::Refuse(submission.unexpected_parameter(key))
            } else if is_file {
                MultipartModel::Store {
                    submission,
                    path_is_text,
                    name: key,
                    file: file_for(submission, key),
                }
            } else {
                MultipartModel::ReadText { submission, path_is_text, name: key }
            },
        },
    }
}

/// Where a request stands once `value` is the value of its next field.
pub open spec fn valued(
    submission: SubmissionModel,
    path_is_text: bool,
    value: Seq<char>,
) -> MultipartModel {
    let next = submission.with(value);
    match submission.due() {
        Some(ParameterModel { name, validator: Some(validator) }) => MultipartModel::Validate {
            submission: next,
            path_is_text,
            name,
            validator,
        },
        _ => MultipartModel::ReadField { submission: next, path_is_text },
    }
}

/// The failure of a request whose field `name` could not be stored.
pub open spec fn store_failure(
    route: Seq<char>,
    name: Seq<char>,
    event: StoredModel,
) -> Option<FailureModel> {
    match event {
        StoredModel::NotRead => Some(
            failure::internal_error(
                route + ": "@ + name + ": Failed to read bytes of field '"@ + name
                    + "'; file could be too large"@,
            ),
        ),
        StoredModel::NoDirectory(path) => Some(
            failure::internal_error(
                route + ": "@ + name + ": Failed to create directory '"@ + path + "'"@,
            ),
        ),
        StoredModel::NoFile(path) => Some(
            failure::internal_error(
                route + ": "@ + name + ": Failed to create file '"@ + path + "'"@,
            ),
        ),
        StoredModel::NotWritten(path) => Some(
            failure::internal_error(
                route + ": "@ + name + ": Failed to write bytes to file '"@ + path + "'"@,
            ),
        ),
        StoredModel::NotText => Some(
            failure::internal_error(
                route + ": "@ + name + ": Failed to coerce path to string"@,
            ),
        ),
        StoredModel::Done(_) => None,
    }
}

/// Where a request stands after an attempt to store the field `name`.
pub open spec fn stored(
    submission: SubmissionModel,
    path_is_text: bool,
    name: Seq<char>,
    event: StoredModel,
) -> MultipartModel {
    match store_failure(submission.route, name, event) {
        Some(fault) => MultipartModel::Refuse(fault),
        None => valued(submission, path_is_text, event->Done_0),
    }
}

/// Where a request stands after an attempt to read the field `name` as text.
pub open spec fn text_read(
    submission: SubmissionModel,
    path_is_text: bool,
    name: Seq<char>,
    event: Option<Seq<char>>,
) -> MultipartModel {
    match event {
        None => MultipartModel::Refuse(
            failure::internal_error(
                submission.route + ": "@ + name + ": Failed to read text of field '"@ + name
                    + "'"@,
            ),
        ),
        Some(value) => valued(submission, path_is_text, value),
    }
}

/// Where a request stands once the validator of the parameter `name` has come to `result`.
pub open spec fn validated(
    submission: SubmissionModel,
    path_is_text: bool,
    name: Seq<char>,
    result: CommandModel,
) -> MultipartModel {
    match submission::validator_fault(submission.route, name, result) {
        Some(fault) => MultipartModel::Refuse(fault),
        None => MultipartModel::ReadField { submission, path_is_text },
    }
}

/// How a request ends whose handler has come to `result`, after an attempt to remove the temporary
/// directory, which failed if there is a path to show.
pub open spec fn closed(
    route: Seq<char>,
    result: CommandModel,
    left: Option<Seq<char>>,
) -> Result<ResponseModel, FailureModel> {
    match left {
        Some(path) => Err(
            failure::internal_error(route + ": Failed to close temporary directory "@ + path),
        ),
        None => submission::handler_answer(route, result),
    }
}

/// Where a request stands once `event` has come in. An event that it does not wait for changes
/// nothing.
pub open spec fn step(model: MultipartModel, event: Event) -> MultipartModel {
    match (model, event) {
        (MultipartModel::Open(submission), Event::Opened(event)) => opened(submission, event),
        (
            MultipartModel::ReadField { submission, path_is_text },
            Event::Field(event),
        ) => field_read(submission, path_is_text, event),
        (
            MultipartModel::Store { submission, path_is_text, name, file },
            Event::Stored(event),
        ) => stored(submission, path_is_text, name, event),
        (
            MultipartModel::ReadText { submission, path_is_text, name },
            Event::Text(event),
        ) => text_read(submission, path_is_text, name, event),
        (
            MultipartModel::Validate { submission, path_is_text, name, validator },
            Event::Command(result),
        ) => validated(submission, path_is_text, name, result),
        (MultipartModel::Handle(submission), Event::Command(result)) => MultipartModel::Close {
            submission,
            result,
        },
        _ => model,
    }
}

// ---------------------------------------------------------------------------------------------
// The steps

/// The temporary directory has to be made.
pub struct Opening {
    submission: Submission,
}

/// The next field has to be read.
pub struct FieldReading {
    submission: Submission,
    path_is_text: bool,
}

/// A file has to be stored.
pub struct Storing {
    reading: FieldReading,
    name: String,
    file: String,
}

/// A field has to be read as text.
pub struct TextReading {
    reading: FieldReading,
    name: String,
}

/// A validator has to run.
pub struct MultipartValidation {
    reading: FieldReading,
    name: String,
    program: String,
}

/// The handler has to run.
pub struct MultipartHandling {
    submission: Submission,
}

/// The temporary directory has to be removed.
pub struct Closing {
    submission: Submission,
    result: CommandResult,
}

impl Opening {
    pub closed spec fn submission(&self) -> SubmissionModel {
        self.submission@
    }
}

impl View for Opening {
    type V = MultipartModel;

    open spec fn view(&self) -> MultipartModel {
        MultipartModel::Open(self.submission())
    }
}

impl FieldReading {
    pub closed spec fn submission(&self) -> SubmissionModel {
        self.submission@
    }

    pub closed spec fn path_is_text(&self) -> bool {
        self.path_is_text
    }
}

impl View for FieldReading {
    type V = MultipartModel;

    open spec fn view(&self) -> MultipartModel {
        MultipartModel::ReadField {
            submission: self.submission(),
            path_is_text: self.path_is_text(),
        }
    }
}

impl Storing {
    pub closed spec fn reading(&self) -> FieldReading {
        self.reading
    }

    pub closed spec fn name(&self) -> Seq<char> {
        self.name@
    }

    pub closed spec fn file(&self) -> Seq<char> {
        self.file@
    }
}

impl View for Storing {
    type V = MultipartModel;

    open spec fn view(&self) -> MultipartModel {
        MultipartModel::Store {
            submission: self.reading().submission(),
            path_is_text: self.reading().path_is_text(),
            name: self.name(),
            file: self.file(),
        }
    }
}

impl TextReading {
    pub closed spec fn reading(&self) -> FieldReading {
        self.reading
    }

    pub closed spec fn name(&self) -> Seq<char> {
        self.name@
    }
}

impl View for TextReading {
    type V = MultipartModel;

    open spec fn view(&self) -> MultipartModel {
        MultipartModel::ReadText {
            submission: self.reading().submission(),
            path_is_text: self.reading().path_is_text(),
            name: self.name(),
        }
    }
}

impl MultipartValidation {
    pub closed spec fn reading(&self) -> FieldReading {
        self.reading
    }

    pub closed spec fn name(&self) -> Seq<char> {
        self.name@
    }

    pub closed spec fn validator(&self) -> Seq<char> {
        self.program@
    }
}

impl View for MultipartValidation {
    type V = MultipartModel;

    open spec fn view(&self) -> MultipartModel {
        MultipartModel::Validate {
            submission: self.reading().submission(),
            path_is_text: self.reading().path_is_text(),
            name: self.name(),
            validator: self.validator(),
        }
    }
}

impl MultipartHandling {
    pub closed spec fn submission(&self) -> SubmissionModel {
        self.submission@
    }
}

impl View for MultipartHandling {
    type V = MultipartModel;

    open spec fn view(&self) -> MultipartModel {
        MultipartModel::Handle(self.submission())
    }
}

impl Closing {
    pub closed spec fn submission(&self) -> SubmissionModel {
        self.submission@
    }

    pub closed spec fn result(&self) -> CommandModel {
        self.result@
    }
}

impl View for Closing {
    type V = MultipartModel;

    open spec fn view(&self) -> MultipartModel {
        MultipartModel::Close { submission: self.submission(), result: self.result() }
    }
}

/// What comes next.
pub enum MultipartAction {
    Open(Opening),
    ReadField(FieldReading),
    Store(Storing),
    ReadText(TextReading),
    Validate(MultipartValidation),
    Handle(MultipartHandling),
    Refuse(Failure),
}

impl View for MultipartAction {
    type V = MultipartModel;

    open spec fn view(&self) -> MultipartModel {
        match self {
            MultipartAction::Open(opening) => opening@,
            MultipartAction::ReadField(reading) => reading@,
            MultipartAction::Store(storing) => storing@,
            MultipartAction::ReadText(reading) => reading@,
            MultipartAction::Validate(validation) => validation@,
            MultipartAction::Handle(handling) => handling@,
            MultipartAction::Refuse(fault) => MultipartModel::Refuse(fault@),
        }
    }
}

/// Starts a request to `route`.
pub fn start(route: String, endpoint: Endpoint, is_multipart: bool) -> (action: MultipartAction)
    ensures
        action@ == started(submission::fresh(route@, endpoint@), is_multipart),
{
    let submission = Submission::new(route, endpoint);
    if is_multipart {
        MultipartAction::Open(Opening { submission })
    } else {
        let message = text::concat2(
            submission.route(),
            ": Invalid request to multipart endpoint",
        );
        MultipartAction::Refuse(Failure::bad_request(message))
    }
}

impl Opening {
    /// Goes on after an attempt to make the temporary directory.
    pub fn opened(self, event: Opened) -> (action: MultipartAction)
        ensures
            action@ == step(self@, Event::Opened(event)),
    {
        match event {
            Opened::Failed => {
                let message = text::concat2(
                    self.submission.route(),
                    ": Failed to create a temporary directory for request handling",
                );
                MultipartAction::Refuse(Failure::internal_error(message))
            },
            Opened::Made { path_is_text } => MultipartAction::ReadField(
                FieldReading { submission: self.submission, path_is_text },
            ),
        }
    }
}

impl FieldReading {
    /// Goes on after an attempt to read the next field.
    pub fn field(self, event: NextField) -> (action: MultipartAction)
        ensures
            action@ == step(self@, Event::Field(event@)),
    {
        match event {
            NextField::Failed => {
                let message = text::concat2(
                    self.submission.route(),
                    ": Failed to read the next form field from the multipart stream",
                );
                MultipartAction::Refuse(Failure::internal_error(message))
            },
            NextField::End => self.end(),
            NextField::Field { name: None, is_file: _ } => {
                let message = text::concat2(
                    self.submission.route(),
                    ": Failed to read name of multipart form field",
                );
                MultipartAction::Refuse(Failure::internal_error(message))
            },
            NextField::Field { name: Some(key), is_file } => match self.submission.due() {
                None => MultipartAction::Refuse(
                    self.submission.unexpected_parameter(key.as_str()),
                ),
                Some(parameter) => if parameter.name != key {
                    MultipartAction::Refuse(self.submission.unexpected_parameter(key.as_str()))
                } else if is_file {
                    let file = naming::base26(self.submission.count(&key));
                    MultipartAction::Store(Storing { reading: self, name: key, file })
                } else {
                    MultipartAction::ReadText(TextReading { reading: self, name: key })
                },
            },
        }
    }

    /// Goes on after the last field.
    fn end(self) -> (action: MultipartAction)
        ensures
            action@ == ended(self.submission@, self.path_is_text),
    {
        match self.submission.due() {
            Some(parameter) => MultipartAction::Refuse(
                self.submission.missing_field(parameter.name.as_str()),
            ),
            None => if self.path_is_text {
                MultipartAction::Handle(MultipartHandling { submission: self.submission })
            } else {
                let message = text::concat2(
                    self.submission.route(),
                    ": Failed to get path from temporary directory",
                );
                MultipartAction::Refuse(Failure::internal_error(message))
            },
        }
    }

    /// Goes on once `value` is the value of the next field.
    fn take(self, value: String) -> (action: MultipartAction)
        ensures
            action@ == valued(self.submission@, self.path_is_text, value@),
    {
        let due = self.submission.due();
        let FieldReading { submission, path_is_text } = self;
        let mut submission = submission;
        submission.give(value);
        let reading = FieldReading { submission, path_is_text };
        match due {
            Some(parameter) => match parameter.validator {
                Some(program) => MultipartAction::Validate(
                    MultipartValidation { reading, name: parameter.name, program },
                ),
                None => MultipartAction::ReadField(reading),
            },
            None => MultipartAction::ReadField(reading),
        }
    }
}

impl Storing {
    /// The directory for the file, in the temporary one.
    pub fn directory(&self) -> (directory: &str)
        ensures
            directory@ == self.name(),
    {
        self.name.as_str()
    }

    /// The name of the file.
    pub fn file_name(&self) -> (file: &str)
        ensures
            file@ == self.file(),
    {
        self.file.as_str()
    }

    /// Goes on after an attempt to store the file.
    pub fn stored(self, event: Stored) -> (action: MultipartAction)
        ensures
            action@ == step(self@, Event::Stored(event@)),
    {
        let route = self.reading.submission.route();
        let name = self.name.as_str();
        let message = match event {
            Stored::NotRead => text::concat6(
                route,
                ": ",
                name,
                ": Failed to read bytes of field '",
                name,
                "'; file could be too large",
            ),
            Stored::NoDirectory(path) => text::concat6(
                route,
                ": ",
                name,
                ": Failed to create directory '",
                path.as_str(),
                "'",
            ),
            Stored::NoFile(path) => text::concat6(
                route,
                ": ",
                name,
                ": Failed to create file '",
                path.as_str(),
                "'",
            ),
            Stored::NotWritten(path) => text::concat6(
                route,
                ": ",
                name,
                ": Failed to write bytes to file '",
                path.as_str(),
                "'",
            ),
            Stored::NotText => text::concat4(
                route,
                ": ",
                name,
                ": Failed to coerce path to string",
            ),
            Stored::Done(path) => return self.reading.take(path),
        };
        MultipartAction::Refuse(Failure::internal_error(message))
    }
}

impl TextReading {
    /// Goes on after an attempt to read the field as text.
    pub fn text(self, event: Option<String>) -> (action: MultipartAction)
        ensures
            action@ == step(self@, Event::Text(text::text_model(event))),
    {
        match event {
            Some(value) => self.reading.take(value),
            None => {
                let message = text::concat6(
                    self.reading.submission.route(),
                    ": ",
                    self.name.as_str(),
                    ": Failed to read text of field '",
                    self.name.as_str(),
                    "'",
                );
                MultipartAction::Refuse(Failure::internal_error(message))
            },
        }
    }
}

impl MultipartValidation {
    /// The validator to run.
    pub fn program(&self) -> (program: &str)
        ensures
            program@ == self.validator(),
    {
        self.program.as_str()
    }

    /// The arguments to run it with: the values of the fields up to the one that it validates.
    pub fn arguments(&self) -> (arguments: &Vec<String>)
        ensures
            text::texts(arguments@) == self.reading().submission().arguments,
    {
        self.reading.submission.arguments()
    }

    /// Goes on once the validator has run. The first part of the result is for the log, ahead of
    /// anything that comes next.
    pub fn exited(self, result: CommandResult) -> (r: (Option<String>, MultipartAction))
        ensures
            text::text_model(r.0) == submission::echo_of(
                self.reading().submission().route + ": "@ + self.name() + ": "@,
                result@,
            ),
            r.1@ == step(self@, Event::Command(result@)),
    {
        let (echo, fault) = submission::judge_validator(
            self.reading.submission.route(),
            self.name.as_str(),
            result,
        );
        match fault {
            Some(fault) => (echo, MultipartAction::Refuse(fault)),
            None => (echo, MultipartAction::ReadField(self.reading)),
        }
    }
}

impl MultipartHandling {
    /// The handler to run.
    pub fn program(&self) -> (program: &str)
        ensures
            program@ == self.submission().command,
    {
        self.submission.command()
    }

    /// The arguments to run it with: the values of all fields.
    pub fn arguments(&self) -> (arguments: &Vec<String>)
        ensures
            text::texts(arguments@) == self.submission().arguments,
    {
        self.submission.arguments()
    }

    /// Goes on once the handler has run.
    pub fn exited(self, result: CommandResult) -> (closing: Closing)
        ensures
            closing@ == step(self@, Event::Command(result@)),
    {
        Closing { submission: self.submission, result }
    }
}

impl Closing {
    /// Ends the request after an attempt to remove the temporary directory. If that failed, `left`
    /// is its path as the log shows it. The first part of the result is for the log, ahead of the
    /// reply.
    pub fn closed(self, left: Option<String>) -> (r: (Option<String>, Reply))
        ensures
            text::text_model(r.0) == if left is Some {
                None
            } else {
                submission::echo_of(Seq::empty(), self.result())
            },
            r.1.meets(
                closed(
                    self.submission().route,
                    self.result(),
                    text::text_model(left),
                ),
                if left is Some {
                    0
                } else {
                    submission::headers_held(self.result())
                },
            ),
    {
        match left {
            Some(path) => {
                let message = text::concat2(
                    text::concat2(
                        self.submission.route(),
                        ": Failed to close temporary directory ",
                    ).as_str(),
                    path.as_str(),
                );
                (None, Reply::Refuse(Failure::internal_error(message)))
            },
            None => {
                let label = String::new();
                submission::judge_handler(self.submission.route(), label.as_str(), self.result)
            },
        }
    }
}

// ---------------------------------------------------------------------------------------------
// Whole requests

/// Where a request stands once `events` have come in, one after the other.
pub open spec fn reached(start: MultipartModel, events: Seq<Event>) -> MultipartModel
    decreases events.len(),
{
    if events.len() == 0 {
        start
    } else {
        step(reached(start, events.drop_last()), events.last())
    }
}

/// Whether `event` is what a request waits for.
pub open spec fn awaits(model: MultipartModel, event: Event) -> bool {
    match model {
        MultipartModel::Open(_) => event is Opened,
        MultipartModel::ReadField { .. } => event is Field,
        MultipartModel::Store { .. } => event is Stored,
        MultipartModel::ReadText { .. } => event is Text,
        MultipartModel::Validate { .. } => event is Command,
        MultipartModel::Handle(_) => event is Command,
        MultipartModel::Close { .. } => false,
        MultipartModel::Refuse(_) => false,
    }
}

/// Whether each of the events is what the request waits for when it comes in.
pub open spec fn in_turn(start: MultipartModel, events: Seq<Event>) -> bool
    decreases events.len(),
{
    events.len() > 0 ==> in_turn(start, events.drop_last()) && awaits(
        reached(start, events.drop_last()),
        events.last(),
    )
}

/// The names of the fields that came in.
pub open spec fn keys_of(events: Seq<Event>) -> Seq<Seq<char>>
    decreases events.len(),
{
    if events.len() == 0 {
        Seq::empty()
    } else {
        let before = keys_of(events.drop_last());
        match events.last() {
            Event::Field(NextFieldModel::Field { name: Some(name), is_file }) => before.push(name),
            _ => before,
        }
    }
}

/// The values of the fields that came in: the paths of files, and texts.
pub open spec fn values_of(events: Seq<Event>) -> Seq<Seq<char>>
    decreases events.len(),
{
    if events.len() == 0 {
        Seq::empty()
    } else {
        let before = values_of(events.drop_last());
        match events.last() {
            Event::Stored(StoredModel::Done(path)) => before.push(path),
            Event::Text(Some(value)) => before.push(value),
            _ => before,
        }
    }
}

/// The results of the commands that were run.
pub open spec fn results_of(events: Seq<Event>) -> Seq<CommandModel>
    decreases events.len(),
{
    if events.len() == 0 {
        Seq::empty()
    } else {
        let before = results_of(events.drop_last());
        match events.last() {
            Event::Command(result) => before.push(result),
            _ => before,
        }
    }
}

/// Whether every one of some commands did its work.
pub open spec fn all_passed(results: Seq<CommandModel>) -> bool {
    forall|k: int| 0 <= k < results.len() ==> submission::passed(#[trigger] results[k])
}

/// The names of some parameters.
pub open spec fn names(parameters: Seq<ParameterModel>) -> Seq<Seq<char>> {
    parameters.map_values(|p: ParameterModel| p.name)
}

/// Whether a submission is `start` with the values of the first fields, of which as many as
/// `named` tells have been named and `values` are the values.
spec fn consistent(
    start: SubmissionModel,
    submission: SubmissionModel,
    events: Seq<Event>,
    named: int,
) -> bool {
    &&& submission == SubmissionModel { arguments: values_of(events), ..start }
    &&& named <= start.parameters.len()
    &&& keys_of(events) == names(start.parameters).take(named)
}

/// What every event that comes in its turn keeps.
proof fn lemma_reached(start: SubmissionModel, events: Seq<Event>)
    requires
        start.arguments.len() == 0,
        in_turn(MultipartModel::Open(start), events),
    ensures
        match reached(MultipartModel::Open(start), events) {
            MultipartModel::Open(submission) => {
                &&& submission == start
                &&& events.len() == 0
            },
            MultipartModel::ReadField { submission, path_is_text } => {
                let n = submission.arguments.len() as int;
                &&& consistent(start, submission, events, n)
                &&& all_passed(results_of(events))
                &&& results_of(events).len() == submission::validators(start.parameters, n)
            },
            MultipartModel::Store { submission, path_is_text, name, file } => {
                let n = submission.arguments.len() as int;
                &&& consistent(start, submission, events, n + 1)
                &&& all_passed(results_of(events))
                &&& results_of(events).len() == submission::validators(start.parameters, n)
                &&& name == start.parameters[n].name
                &&& file == file_for(submission, name)
            },
            MultipartModel::ReadText { submission, path_is_text, name } => {
                let n = submission.arguments.len() as int;
                &&& consistent(start, submission, events, n + 1)
                &&& all_passed(results_of(events))
                &&& results_of(events).len() == submission::validators(start.parameters, n)
                &&& name == start.parameters[n].name
            },
            MultipartModel::Validate { submission, path_is_text, name, validator } => {
                let n = submission.arguments.len() as int;
                &&& n > 0
                &&& consistent(start, submission, events, n)
                &&& all_passed(results_of(events))
                &&& results_of(events).len() == submission::validators(start.parameters, n - 1)
                &&& name == start.parameters[n - 1].name
                &&& start.parameters[n - 1].validator == Some(validator)
            },
            MultipartModel::Handle(submission) => {
                let n = submission.arguments.len() as int;
                &&& n == start.parameters.len()
                &&& consistent(start, submission, events, n)
                &&& all_passed(results_of(events))
                &&& results_of(events).len() == submission::validators(start.parameters, n)
            },
            _ => true,
        },
    decreases events.len(),
{
    if events.len() > 0 {
        let before = events.drop_last();
        lemma_reached(start, before);
        let model = reached(MultipartModel::Open(start), before);
        let event = events.last();
        let all = names(start.parameters);
        match (model, event) {
            (MultipartModel::Open(submission), Event::Opened(_)) => {
                assert(values_of(before).len() == 0 && keys_of(before).len() == 0);
                assert(results_of(before).len() == 0);
                assert(values_of(events) == start.arguments);
                assert(keys_of(events) == all.take(0));
            },
            (MultipartModel::ReadField { submission, path_is_text }, Event::Field(field)) => {
                let n = submission.arguments.len() as int;
                if n < start.parameters.len() {
                    assert(all.take(n + 1) == all.take(n).push(start.parameters[n].name));
                }
            },
            (
                MultipartModel::Validate { submission, path_is_text, name, validator },
                Event::Command(result),
            ) => {
                submission::law_validator_turns_down(submission.route, name, result);
                assert(results_of(events) == results_of(before).push(result));
                if submission::passed(result) {
                    assert forall|k: int| 0 <= k < results_of(events).len() implies submission::passed(
                        #[trigger] results_of(events)[k],
                    ) by {
                        if k < results_of(before).len() {
                            assert(results_of(events)[k] == results_of(before)[k]);
                        }
                    }
                }
            },
            _ => {},
        }
    }
}

/// The handler of an endpoint is run for a request only if the fields that came in are exactly
/// those that the parameters ask for, in their order, and every validator has run and has done its
/// work. Its arguments are the values of the fields, in their order.
pub proof fn law_when_the_handler_runs(start: SubmissionModel, events: Seq<Event>)
    requires
        start.arguments.len() == 0,
        in_turn(MultipartModel::Open(start), events),
        reached(MultipartModel::Open(start), events) is Handle,
    ensures
        keys_of(events) == names(start.parameters),
        values_of(events).len() == start.parameters.len(),
        all_passed(results_of(events)),
        results_of(events).len() == submission::validators(
            start.parameters,
            start.parameters.len() as int,
        ),
        reached(MultipartModel::Open(start), events) == MultipartModel::Handle(
            SubmissionModel { arguments: values_of(events), ..start },
        ),
{
    lemma_reached(start, events);
    let all = names(start.parameters);
    assert(all.take(all.len() as int) == all);
}

/// Validators run in the order of the parameters, each only after the ones before it have done
/// their work and after the field of its parameter has been read, and its arguments are the values
/// of the fields up to that one.
pub proof fn law_when_a_validator_runs(start: SubmissionModel, events: Seq<Event>)
    requires
        start.arguments.len() == 0,
        in_turn(MultipartModel::Open(start), events),
        reached(MultipartModel::Open(start), events) is Validate,
    ensures
        all_passed(results_of(events)),
        ({
            let model = reached(MultipartModel::Open(start), events);
            let n = values_of(events).len() as int;
            &&& 0 < n <= start.parameters.len()
            &&& keys_of(events) == names(start.parameters).take(n)
            &&& results_of(events).len() == submission::validators(start.parameters, n - 1)
            &&& model->Validate_submission == SubmissionModel {
                arguments: values_of(events),
                ..start
            }
            &&& model->Validate_name == start.parameters[n - 1].name
            &&& start.parameters[n - 1].validator == Some(model->validator)
        }),
{
    lemma_reached(start, events);
}

/// A request that has been refused, or whose handler has run, stays so whatever comes in.
pub proof fn law_outcome_is_final(start: MultipartModel, events: Seq<Event>, more: Event)
    requires
        reached(start, events) is Refuse || reached(start, events) is Close,
    ensures
        reached(start, events.push(more)) == reached(start, events),
{
    assert(events.push(more).drop_last() == events);
}

/// The events of a field that does what its parameter asks for.
pub open spec fn field_events(
    parameter: ParameterModel,
    value: Seq<char>,
    is_file: bool,
    result: CommandModel,
) -> Seq<Event> {
    let content = if is_file {
        Event::Stored(StoredModel::Done(value))
    } else {
        Event::Text(Some(value))
    };
    let read = seq![
        Event::Field(NextFieldModel::Field { name: Some(parameter.name), is_file }),
        content,
    ];
    if parameter.validator is Some {
        read.push(Event::Command(result))
    } else {
        read
    }
}

/// The events of a request up to its field `n`, each of which does what its parameter asks for.
pub open spec fn request_events(
    parameters: Seq<ParameterModel>,
    values: Seq<Seq<char>>,
    files: Seq<bool>,
    results: Seq<CommandModel>,
    n: int,
) -> Seq<Event>
    decreases n,
{
    if n <= 0 {
        seq![Event::Opened(Opened::Made { path_is_text: true })]
    } else {
        request_events(parameters, values, files, results, n - 1) + field_events(
            parameters[n - 1],
            values[n - 1],
            files[n - 1],
            results[n - 1],
        )
    }
}

proof fn lemma_request_events(
    start: SubmissionModel,
    values: Seq<Seq<char>>,
    files: Seq<bool>,
    results: Seq<CommandModel>,
    n: int,
)
    requires
        start.arguments.len() == 0,
        0 <= n <= start.parameters.len(),
        values.len() == start.parameters.len(),
        files.len() == start.parameters.len(),
        results.len() == start.parameters.len(),
        all_passed(results),
    ensures
        reached(
            MultipartModel::Open(start),
            request_events(start.parameters, values, files, results, n),
        ) == (MultipartModel::ReadField {
            submission: SubmissionModel { arguments: values.take(n), ..start },
            path_is_text: true,
        }),
    decreases n,
{
    let open = MultipartModel::Open(start);
    let events = request_events(start.parameters, values, files, results, n);
    if n == 0 {
        assert(events.drop_last() == Seq::<Event>::empty());
        assert(reached(open, events.drop_last()) == open);
        assert(values.take(0) == start.arguments);
    } else {
        lemma_request_events(start, values, files, results, n - 1);
        let before = request_events(start.parameters, values, files, results, n - 1);
        let parameter = start.parameters[n - 1];
        let last = field_events(parameter, values[n - 1], files[n - 1], results[n - 1]);
        let named = before.push(last[0]);
        let valued = named.push(last[1]);
        assert(named.drop_last() == before);
        assert(valued.drop_last() == named);
        assert(values.take(n) == values.take(n - 1).push(values[n - 1]));
        let submission = SubmissionModel { arguments: values.take(n - 1), ..start };
        assert(submission.due() == Some(parameter));
        assert(submission.with(values[n - 1]) == SubmissionModel {
            arguments: values.take(n),
            ..start
        });
        let next = SubmissionModel { arguments: values.take(n), ..start };
        assert(named.last() == last[0] && valued.last() == last[1]);
        assert(reached(open, named) == field_read(
            submission,
            true,
            NextFieldModel::Field { name: Some(parameter.name), is_file: files[n - 1] },
        ));
        assert(reached(open, valued) == self::valued(submission, true, values[n - 1]));
        if parameter.validator is Some {
            assert(submission::passed(results[n - 1]));
            submission::law_validator_turns_down(start.route, parameter.name, results[n - 1]);
            assert(events.drop_last() == valued);
            assert(events.last() == Event::Command(results[n - 1]));
            assert(reached(open, events) == validated(
                next,
                true,
                parameter.name,
                results[n - 1],
            ));
        } else {
            assert(events == valued);
        }
    }
}

/// A request whose fields are exactly those that the parameters ask for, in their order, whose
/// files can be stored and whose validators do their work, comes to its handler. The arguments are
/// the values of the fields, in their order.
pub proof fn law_complete_request_is_handled(
    start: SubmissionModel,
    values: Seq<Seq<char>>,
    files: Seq<bool>,
    results: Seq<CommandModel>,
)
    requires
        start.arguments.len() == 0,
        values.len() == start.parameters.len(),
        files.len() == start.parameters.len(),
        results.len() == start.parameters.len(),
        all_passed(results),
    ensures
        reached(
            MultipartModel::Open(start),
            request_events(
                start.parameters,
                values,
                files,
                results,
                start.parameters.len() as int,
            ).push(Event::Field(NextFieldModel::End)),
        ) == MultipartModel::Handle(SubmissionModel { arguments: values, ..start }),
{
    let n = start.parameters.len() as int;
    let events = request_events(start.parameters, values, files, results, n);
    lemma_request_events(start, values, files, results, n);
    assert(events.push(Event::Field(NextFieldModel::End)).drop_last() == events);
    assert(values.take(n) == values);
}

/// No two fields of a request are stored as the same file of the same directory.
pub proof fn law_files_differ(start: SubmissionModel, earlier: Seq<Event>, later: Seq<Event>)
    requires
        start.arguments.len() == 0,
        in_turn(MultipartModel::Open(start), earlier),
        in_turn(MultipartModel::Open(start), later),
        reached(MultipartModel::Open(start), earlier) is Store,
        reached(MultipartModel::Open(start), later) is Store,
        values_of(earlier).len() != values_of(later).len(),
    ensures
        ({
            let first = reached(MultipartModel::Open(start), earlier);
            let second = reached(MultipartModel::Open(start), later);
            first->Store_name != second->Store_name || first->file != second->file
        }),
{
    lemma_reached(start, earlier);
    lemma_reached(start, later);
    let first = reached(MultipartModel::Open(start), earlier);
    let second = reached(MultipartModel::Open(start), later);
    let m = values_of(earlier).len() as int;
    let n = values_of(later).len() as int;
    if first->Store_name == second->Store_name {
        if m < n {
            submission::lemma_occurrences_grow(start.parameters, m, n);
        } else {
            submission::lemma_occurrences_grow(start.parameters, n, m);
        }
        naming::law_names_differ(
            submission::occurrences(start.parameters, m, first->Store_name),
            submission::occurrences(start.parameters, n, second->Store_name),
        );
    }
}

// ---------------------------------------------------------------------------------------------
// What each event leads to

/// The views of what comes in hold what came in.
pub proof fn law_views(name: String, is_file: bool, path: String)
    ensures
        NextField::Failed@ == NextFieldModel::Failed,
        NextField::End@ == NextFieldModel::End,
        (NextField::Field { name: Some(name), is_file })@ == (NextFieldModel::Field {
            name: Some(name@),
            is_file,
        }),
        (NextField::Field { name: None, is_file })@ == (NextFieldModel::Field {
            name: None,
            is_file,
        }),
        Stored::NotRead@ == StoredModel::NotRead,
        Stored::NoDirectory(path)@ == StoredModel::NoDirectory(path@),
        Stored::NoFile(path)@ == StoredModel::NoFile(path@),
        Stored::NotWritten(path)@ == StoredModel::NotWritten(path@),
        Stored::NotText@ == StoredModel::NotText,
        Stored::Done(path)@ == StoredModel::Done(path@),
{
}

/// What comes next is what the model of it says, in the same step.
pub proof fn law_actions(action: MultipartAction)
    ensures
        action is Open <==> action@ is Open,
        action is ReadField <==> action@ is ReadField,
        action is Store <==> action@ is Store,
        action is ReadText <==> action@ is ReadText,
        action is Validate <==> action@ is Validate,
        action is Handle <==> action@ is Handle,
        action is Refuse <==> action@ is Refuse,
        action matches MultipartAction::Open(opening) ==> action@ == MultipartModel::Open(
            opening.submission(),
        ),
        action matches MultipartAction::ReadField(reading) ==> action@
            == (MultipartModel::ReadField {
            submission: reading.submission(),
            path_is_text: reading.path_is_text(),
        }),
        action matches MultipartAction::Store(storing) ==> action@ == (MultipartModel::Store {
            submission: storing.reading().submission(),
            path_is_text: storing.reading().path_is_text(),
            name: storing.name(),
            file: storing.file(),
        }),
        action matches MultipartAction::ReadText(reading) ==> action@
            == (MultipartModel::ReadText {
            submission: reading.reading().submission(),
            path_is_text: reading.reading().path_is_text(),
            name: reading.name(),
        }),
        action matches MultipartAction::Validate(validation) ==> action@
            == (MultipartModel::Validate {
            submission: validation.reading().submission(),
            path_is_text: validation.reading().path_is_text(),
            name: validation.name(),
            validator: validation.validator(),
        }),
        action matches MultipartAction::Handle(handling) ==> action@ == MultipartModel::Handle(
            handling.submission(),
        ),
        action matches MultipartAction::Refuse(fault) ==> action@ == MultipartModel::Refuse(fault@),
{
}

/// The handler that a request comes to is the submission that it stands for, and what the handler
/// came to is kept as it is until the temporary directory is removed.
pub proof fn law_handling_and_closing(handling: MultipartHandling, closing: Closing)
    ensures
        handling@ == MultipartModel::Handle(handling.submission()),
        closing@ == (MultipartModel::Close {
            submission: closing.submission(),
            result: closing.result(),
        }),
{
}

/// A request starts with the command and the parameters of its endpoint, as they are, and with no
/// values. One that is not multipart is a bad request.
pub proof fn law_start(route: Seq<char>, endpoint: EndpointModel)
    ensures
        started(submission::fresh(route, endpoint), true) == MultipartModel::Open(
            SubmissionModel {
                route,
                command: endpoint.command,
                parameters: endpoint.parameters,
                arguments: Seq::empty(),
            },
        ),
        started(submission::fresh(route, endpoint), false) == MultipartModel::Refuse(
            FailureModel {
                fault: Fault::BadRequest,
                message: route + ": Invalid request to multipart endpoint"@,
                cause: None,
            },
        ),
{
}

/// Once the temporary directory is there the first field is read. Without it the request is an
/// internal error.
pub proof fn law_directory(submission: SubmissionModel, path_is_text: bool)
    ensures
        step(
            MultipartModel::Open(submission),
            Event::Opened(Opened::Made { path_is_text }),
        ) == (MultipartModel::ReadField { submission, path_is_text }),
        step(MultipartModel::Open(submission), Event::Opened(Opened::Failed))
            == MultipartModel::Refuse(
            FailureModel {
                fault: Fault::InternalServerError,
                message: submission.route
                    + ": Failed to create a temporary directory for request handling"@,
                cause: None,
            },
        ),
{
}

/// A field is read if and only if its name is that of the first parameter that has no value yet: as a
/// file if it is one, and else as text. A file goes by the number of parameters before it with the
/// same name. Any other field is a bad request, and one that cannot be read or that has no name is an
/// internal error.
pub proof fn law_field(
    submission: SubmissionModel,
    path_is_text: bool,
    key: Seq<char>,
    is_file: bool,
)
    ensures
        ({
            let model = MultipartModel::ReadField { submission, path_is_text };
            let next = step(
                model,
                Event::Field(NextFieldModel::Field { name: Some(key), is_file }),
            );
            let n = submission.arguments.len() as int;
            let fits = n < submission.parameters.len() && submission.parameters[n].name == key;
            &&& fits && !is_file ==> next == (MultipartModel::ReadText {
                submission,
                path_is_text,
                name: key,
            })
            &&& fits && is_file ==> next == (MultipartModel::Store {
                submission,
                path_is_text,
                name: key,
                file: naming::name_of(
                    submission.parameters.take(n).filter(|p: ParameterModel| p.name == key).len(),
                ),
            })
            &&& !fits ==> next == MultipartModel::Refuse(
                FailureModel {
                    fault: Fault::BadRequest,
                    message: submission.route + ": Unexpected parameter '"@ + key + "'"@,
                    cause: None,
                },
            )
            &&& step(model, Event::Field(NextFieldModel::Field { name: None, is_file }))
                == MultipartModel::Refuse(
                FailureModel {
                    fault: Fault::InternalServerError,
                    message: submission.route + ": Failed to read name of multipart form field"@,
                    cause: None,
                },
            )
            &&& step(model, Event::Field(NextFieldModel::Failed)) == MultipartModel::Refuse(
                FailureModel {
                    fault: Fault::InternalServerError,
                    message: submission.route
                        + ": Failed to read the next form field from the multipart stream"@,
                    cause: None,
                },
            )
        }),
{
    let n = submission.arguments.len() as int;
    if n < submission.parameters.len() {
        submission::law_counts(submission.parameters, n, key);
    }
}

/// After the last field the handler runs if and only if every parameter has a value. Otherwise the
/// request is a bad one that misses the first parameter without a value. Where the path of the
/// temporary directory is not text, a request that misses nothing is an internal error.
pub proof fn law_last_field(submission: SubmissionModel, path_is_text: bool)
    ensures
        ({
            let next = step(
                MultipartModel::ReadField { submission, path_is_text },
                Event::Field(NextFieldModel::End),
            );
            let n = submission.arguments.len() as int;
            &&& n >= submission.parameters.len() && path_is_text ==> next == MultipartModel::Handle(
                submission,
            )
            &&& n >= submission.parameters.len() && !path_is_text ==> next
                == MultipartModel::Refuse(
                FailureModel {
                    fault: Fault::InternalServerError,
                    message: submission.route + ": Failed to get path from temporary directory"@,
                    cause: None,
                },
            )
            &&& n < submission.parameters.len() ==> next == MultipartModel::Refuse(
                FailureModel {
                    fault: Fault::BadRequest,
                    message: submission.route + ": Field '"@ + submission.parameters[n].name
                        + "' was missing from request"@,
                    cause: None,
                },
            )
        }),
{
}

/// The value of a field, which is its text or the path of its file, becomes the last argument, as it
/// is. The validator of its parameter runs next if it has one, and else the next field is read.
pub proof fn law_value(
    submission: SubmissionModel,
    path_is_text: bool,
    name: Seq<char>,
    file: Seq<char>,
    value: Seq<char>,
)
    requires
        submission.arguments.len() < submission.parameters.len(),
    ensures
        ({
            let parameter = submission.parameters[submission.arguments.len() as int];
            let longer = SubmissionModel {
                route: submission.route,
                command: submission.command,
                parameters: submission.parameters,
                arguments: submission.arguments.push(value),
            };
            let read = step(
                MultipartModel::ReadText { submission, path_is_text, name },
                Event::Text(Some(value)),
            );
            let stored = step(
                MultipartModel::Store { submission, path_is_text, name, file },
                Event::Stored(StoredModel::Done(value)),
            );
            &&& read == stored
            &&& parameter.validator is None ==> read == (MultipartModel::ReadField {
                submission: longer,
                path_is_text,
            })
            &&& parameter.validator is Some ==> read == (MultipartModel::Validate {
                submission: longer,
                path_is_text,
                name: parameter.name,
                validator: parameter.validator->0,
            })
        }),
{
}

/// A field that cannot be read or stored makes the request an internal error, and the log is told the
/// route, the parameter and the reason.
pub proof fn law_value_fails(
    submission: SubmissionModel,
    path_is_text: bool,
    name: Seq<char>,
    file: Seq<char>,
    path: Seq<char>,
)
    ensures
        ({
            let model = MultipartModel::Store { submission, path_is_text, name, file };
            let label = submission.route + ": "@ + name;
            &&& step(
                MultipartModel::ReadText { submission, path_is_text, name },
                Event::Text(None),
            ) == MultipartModel::Refuse(
                FailureModel {
                    fault: Fault::InternalServerError,
                    message: label + ": Failed to read text of field '"@ + name + "'"@,
                    cause: None,
                },
            )
            &&& step(model, Event::Stored(StoredModel::NotRead)) == MultipartModel::Refuse(
                FailureModel {
                    fault: Fault::InternalServerError,
                    message: label + ": Failed to read bytes of field '"@ + name
                        + "'; file could be too large"@,
                    cause: None,
                },
            )
            &&& step(model, Event::Stored(StoredModel::NoDirectory(path)))
                == MultipartModel::Refuse(
                FailureModel {
                    fault: Fault::InternalServerError,
                    message: label + ": Failed to create directory '"@ + path + "'"@,
                    cause: None,
                },
            )
            &&& step(model, Event::Stored(StoredModel::NoFile(path))) == MultipartModel::Refuse(
                FailureModel {
                    fault: Fault::InternalServerError,
                    message: label + ": Failed to create file '"@ + path + "'"@,
                    cause: None,
                },
            )
            &&& step(model, Event::Stored(StoredModel::NotWritten(path)))
                == MultipartModel::Refuse(
                FailureModel {
                    fault: Fault::InternalServerError,
                    message: label + ": Failed to write bytes to file '"@ + path + "'"@,
                    cause: None,
                },
            )
            &&& step(model, Event::Stored(StoredModel::NotText)) == MultipartModel::Refuse(
                FailureModel {
                    fault: Fault::InternalServerError,
                    message: label + ": Failed to coerce path to string"@,
                    cause: None,
                },
            )
        }),
{
}

/// Once a validator has run the next field is read, with the same values, if and only if it exited
/// with code zero and wrote UTF-8 to its error stream. With another exit code the request is a bad
/// one, and in any other case an internal error.
pub proof fn law_validation(
    submission: SubmissionModel,
    path_is_text: bool,
    name: Seq<char>,
    validator: Seq<char>,
    result: CommandModel,
)
    ensures
        ({
            let next = step(
                MultipartModel::Validate { submission, path_is_text, name, validator },
                Event::Command(result),
            );
            let ran = result is Exited && vstd::utf8::valid_utf8(result->stderr);
            &&& ran && result->code == Some(0i32) ==> next == (MultipartModel::ReadField {
                submission,
                path_is_text,
            })
            &&& !(ran && result->code == Some(0i32)) ==> next is Refuse && submission::validator_fault(
                submission.route,
                name,
                result,
            ) == Some(next->Refuse_0)
            &&& next is Refuse ==> ((next->Refuse_0).fault == Fault::BadRequest <==> ran
                && result->code is Some)
        }),
{
    match result {
        CommandModel::NotRun(error) => {
            submission::law_validator(
                submission.route,
                name,
                error,
                None,
                Seq::empty(),
                Seq::empty(),
            );
        },
        CommandModel::Exited { code, stdout, stderr } => {
            submission::law_validator(
                submission.route,
                name,
                Seq::empty(),
                code,
                stdout,
                stderr,
            );
        },
    }
}

/// What a request is concluded with is the very result that its handler came to. With the temporary
/// directory removed, the client gets what the output of the handler asks for if and only if the
/// handler ran, wrote UTF-8 to its error stream and exited with code zero, and is refused as a bad
/// request if it exited with another code. Where the directory is left, the request is an internal
/// error, whatever the handler came to.
pub proof fn law_conclusion(submission: SubmissionModel, result: CommandModel, path: Seq<char>)
    ensures
        step(MultipartModel::Handle(submission), Event::Command(result))
            == (MultipartModel::Close { submission, result }),
        ({
            let end = closed(submission.route, result, None);
            let ran = result is Exited && vstd::utf8::valid_utf8(result->stderr);
            &&& ran && result->code == Some(0i32) ==> end == output::answer_of(result->stdout)
            &&& !(ran && result->code == Some(0i32)) ==> end is Err
            &&& ran && (result->code matches Some(code) && code != 0) ==> end == Err::<
                ResponseModel,
                _,
            >(
                FailureModel {
                    fault: Fault::BadRequest,
                    message: submission.route
                        + ": Handle exited with an unsuccessful status code ("@ + text::decimal(
                        result->code->0 as int,
                    ) + ")"@,
                    cause: None,
                },
            )
            &&& ran && result->code is None ==> end == Err::<ResponseModel, _>(
                FailureModel {
                    fault: Fault::InternalServerError,
                    message: submission.route
                        + ": Handle exited with an indeterminate status code"@,
                    cause: None,
                },
            )
            &&& result is Exited && !ran ==> end == Err::<ResponseModel, _>(
                FailureModel {
                    fault: Fault::InternalServerError,
                    message: submission.route + ": Failed to write handler stderr to stderr"@,
                    cause: Some(CauseModel::Stderr),
                },
            )
            &&& result is NotRun ==> end == Err::<ResponseModel, _>(
                FailureModel {
                    fault: Fault::InternalServerError,
                    message: submission.route + ": Command execution returned an error"@,
                    cause: None,
                },
            )
        }),
        closed(submission.route, result, Some(path)) == Err::<ResponseModel, _>(
            FailureModel {
                fault: Fault::InternalServerError,
                message: submission.route + ": Failed to close temporary directory "@ + path,
                cause: None,
            },
        ),
{
}

/// A request whose fields are exactly those that the parameters of its endpoint ask for, in their
/// order, whose files can be stored and whose validators do their work, runs the command of the
/// endpoint with the values of the fields, in their order, and is concluded with the very result that
/// the command came to.
pub proof fn law_complete_request_is_concluded(
    route: Seq<char>,
    endpoint: EndpointModel,
    values: Seq<Seq<char>>,
    files: Seq<bool>,
    results: Seq<CommandModel>,
    result: CommandModel,
)
    requires
        values.len() == endpoint.parameters.len(),
        files.len() == endpoint.parameters.len(),
        results.len() == endpoint.parameters.len(),
        forall|i: int|
            0 <= i < results.len() ==> (#[trigger] results[i]) is Exited && results[i]->code == Some(
                0i32,
            ) && vstd::utf8::valid_utf8(results[i]->stderr),
    ensures
        ({
            let start = started(submission::fresh(route, endpoint), true);
            let events = request_events(
                endpoint.parameters,
                values,
                files,
                results,
                endpoint.parameters.len() as int,
            ).push(Event::Field(NextFieldModel::End));
            let complete = SubmissionModel {
                route,
                command: endpoint.command,
                parameters: endpoint.parameters,
                arguments: values,
            };
            &&& reached(start, events) == MultipartModel::Handle(complete)
            &&& reached(start, events.push(Event::Command(result))) == (MultipartModel::Close {
                submission: complete,
                result,
            })
        }),
{
    let start = submission::fresh(route, endpoint);
    let events = request_events(
        endpoint.parameters,
        values,
        files,
        results,
        endpoint.parameters.len() as int,
    ).push(Event::Field(NextFieldModel::End));
    assert(all_passed(results)) by {
        assert forall|k: int| 0 <= k < results.len() implies submission::passed(
            #[trigger] results[k],
        ) by {
            assert(results[k] is Exited);
        }
    }
    law_complete_request_is_handled(start, values, files, results);
    assert(events.push(Event::Command(result)).drop_last() == events);
}

} // verus!
