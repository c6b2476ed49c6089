//! Requests with an URL-encoded form, all of whose fields are known from the start.
//!
//! A request is a sequence of commands to run: the validators of its fields, then the handler. The
//! caller runs each and hands back what came of it.

use crate::endpoint::{Endpoint, EndpointModel, ParameterModel};
use crate::failure::{FailureModel, Fault};
use crate::submission;
use crate::submission::{CommandModel, CommandResult, Reply, Submission, SubmissionModel};
use crate::text;
use vstd::prelude::*;

verus! {

/// A request of which some first fields have been read.
pub struct UrlEncodedRequest {
    submission: Submission,
    form: Vec<(String, String)>,
}

/// The fields of a form: their keys and their values.
pub open spec fn form_model(form: Seq<(String, String)>) -> Seq<(Seq<char>, Seq<char>)> {
    form.map_values(|field: (String, String)| (field.0@, field.1@))
}

impl UrlEncodedRequest {
    /// The submission that the fields so far make up.
    pub closed spec fn submission(self) -> SubmissionModel {
        self.submission@
    }

    /// The fields of the form.
    pub closed spec fn form(self) -> Seq<(Seq<char>, Seq<char>)> {
        form_model(self.form@)
    }
}

/// The validator of the field that was read last has to run.
pub struct UrlEncodedValidation {
    request: UrlEncodedRequest,
    name: String,
    program: String,
}

impl UrlEncodedValidation {
    /// The submission that the fields so far make up.
    pub closed spec fn submission(self) -> SubmissionModel {
        self.request.submission()
    }

    /// The fields of the form.
    pub closed spec fn form(self) -> Seq<(Seq<char>, Seq<char>)> {
        self.request.form()
    }

    /// The parameter whose value is validated.
    pub closed spec fn name(self) -> Seq<char> {
        self.name@
    }

    /// The validator.
    pub closed spec fn validator(self) -> Seq<char> {
        self.program@
    }
}

/// The handler has to run.
pub struct UrlEncodedHandling {
    submission: Submission,
}

impl UrlEncodedHandling {
    /// The submission that the fields make up.
    pub closed spec fn submission(self) -> SubmissionModel {
        self.submission@
    }
}

/// What comes next.
pub enum UrlEncodedAction {
    Validate(UrlEncodedValidation),
    Handle(UrlEncodedHandling),
    Reply(Reply),
}

/// What comes next, as a model: the validator of the parameter `name`, the handler, or a refusal.
#[verifier::ext_equal]
pub enum UrlEncodedModel {
    Validate { submission: SubmissionModel, name: Seq<char>, validator: Seq<char> },
    Handle(SubmissionModel),
    Refuse(FailureModel),
}

impl UrlEncodedAction {
    /// Whether this is what `model` says, for a request with the fields `form`.
    pub open spec fn agrees(self, model: UrlEncodedModel, form: Seq<(Seq<char>, Seq<char>)>) -> bool {
        match self {
            UrlEncodedAction::Validate(validation) => {
                &&& validation.form() == form
                &&& model == UrlEncodedModel::Validate {
                    submission: validation.submission(),
                    name: validation.name(),
                    validator: validation.validator(),
                }
            },
            UrlEncodedAction::Handle(handling) => model == UrlEncodedModel::Handle(
                handling.submission(),
            ),
            UrlEncodedAction::Reply(Reply::Refuse(fault)) => model == UrlEncodedModel::Refuse(
                fault@,
            ),
            UrlEncodedAction::Reply(_) => false,
        }
    }
}

/// Where a request stands once every field has been read up to the next one with a validator.
pub open spec fn advanced(
    submission: SubmissionModel,
    form: Seq<(Seq<char>, Seq<char>)>,
) -> UrlEncodedModel
    decreases form.len() - submission.arguments.len(),
{
    let next = submission.arguments.len() as int;
    if next >= form.len() {
        match submission.due() {
            Some(parameter) => UrlEncodedModel::Refuse(submission.missing_field(parameter.name)),
            None => UrlEncodedModel::Handle(submission),
        }
    } else {
        let (key, value) = form[next];
        match submission.due() {
            None => UrlEncodedModel::Refuse(submission.unexpected_field(key)),
            Some(parameter) => if parameter.name != key {
                UrlEncodedModel::Refuse(submission.unexpected_parameter(key))
            } else {
                match parameter.validator {
                    Some(validator) => UrlEncodedModel::Validate {
                        submission: submission.with(value),
                        name: parameter.name,
                        validator,
                    },
                    None => advanced(submission.with(value), form),
                }
            },
        }
    }
}

/// Where a request stands once the validator that it waits for has come to `result`.
pub open spec fn resumed(
    model: UrlEncodedModel,
    form: Seq<(Seq<char>, Seq<char>)>,
    result: CommandModel,
) -> UrlEncodedModel {
    match model {
        UrlEncodedModel::Validate { submission, name, validator } => match submission::validator_fault(
            submission.route,
            name,
            result,
        ) {
            Some(fault) => UrlEncodedModel::Refuse(fault),
            None => advanced(submission, form),
        },
        _ => model,
    }
}

impl UrlEncodedRequest {
    /// A request to `route` with the fields `form`, of which none has been read.
    pub fn new(route: String, endpoint: Endpoint, form: Vec<(String, String)>) -> (request: Self)
        ensures
            request.submission() == submission::fresh(route@, endpoint@),
            request.form() == form_model(form@),
    {
        UrlEncodedRequest { submission: Submission::new(route, endpoint), form }
    }

    /// Reads fields up to the next one with a validator.
    pub fn advance(self) -> (action: UrlEncodedAction)
        ensures
            action.agrees(advanced(self.submission(), self.form()), self.form()),
    {
        let UrlEncodedRequest { submission, form } = self;
        let mut submission = submission;
        while submission.given() < form.len()
            invariant
                form_model(form@) == self.form(),
                advanced(self.submission(), self.form()) == advanced(submission@, self.form()),
            decreases form.len() - submission@.arguments.len(),
        {
            let next: usize = submission.given();
            let key = &form[next].0;
            let value = form[next].1.clone();
            assert(self.form()[next as int] == (key@, value@));
            match submission.due() {
                None => {
                    let fault = submission.unexpected_field(key.as_str());
                    return UrlEncodedAction::Reply(Reply::Refuse(fault));
                },
                Some(parameter) => {
                    if parameter.name != *key {
                        let fault = submission.unexpected_parameter(key.as_str());
                        return UrlEncodedAction::Reply(Reply::Refuse(fault));
                    }
                    submission.give(value);
                    if let Some(program) = parameter.validator {
                        let request = UrlEncodedRequest { submission, form };
                        return UrlEncodedAction::Validate(
                            UrlEncodedValidation { request, name: parameter.name, program },
                        );
                    }
                },
            }
        }
        match submission.due() {
            Some(parameter) => UrlEncodedAction::Reply(
                Reply::Refuse(submission.missing_field(parameter.name.as_str())),
            ),
            None => UrlEncodedAction::Handle(UrlEncodedHandling { submission }),
        }
    }
}

impl UrlEncodedValidation {
    /// The validator to run.
    pub fn program(&self) -> (program: &str)
        ensures
            program@ == self.validator(),
    {
        self.program.as_str()
    }

    /// The arguments to run it with: the values of the fields up to the one that it validates.
    pub fn arguments(&self) -> (arguments: &Vec<String>)
        ensures
            text::texts(arguments@) == self.submission().arguments,
    {
        self.request.submission.arguments()
    }

    /// Goes on with the request once the validator has run. The first part of the result is for the
    /// log, ahead of anything that comes next.
    pub fn resume(self, result: CommandResult) -> (r: (Option<String>, UrlEncodedAction))
        ensures
            text::text_model(r.0) == submission::echo_of(
                self.submission().route + ": "@ + self.name() + ": "@,
                result@,
            ),
            r.1.agrees(
                resumed(
                    UrlEncodedModel::Validate {
                        submission: self.submission(),
                        name: self.name(),
                        validator: self.validator(),
                    },
                    self.form(),
                    result@,
                ),
                self.form(),
            ),
    {
        let UrlEncodedValidation { request, name, program: _ } = self;
        let (echo, fault) = submission::judge_validator(
            request.submission.route(),
            name.as_str(),
            result,
        );
        match fault {
            Some(fault) => (echo, UrlEncodedAction::Reply(Reply::Refuse(fault))),
            None => (echo, request.advance()),
        }
    }
}

impl UrlEncodedHandling {
    /// The handler to run.
    pub fn program(&self) -> (program: &str)
        ensures
            program@ == self.submission().command,
    {
        self.submission.command()
    }

    /// The arguments to run it with: the values of all fields.
    pub fn arguments(&self) -> (arguments: &Vec<String>)
        ensures
            text::texts(arguments@) == self.submission().arguments,
    {
        self.submission.arguments()
    }

    /// Ends the request once the handler has run. The first part of the result is for the log, ahead
    /// of the reply.
    pub fn conclude(self, result: CommandResult) -> (r: (Option<String>, Reply))
        ensures
            text::text_model(r.0) == submission::echo_of(
                self.submission().route + ": "@,
                result@,
            ),
            r.1.meets(
                submission::handler_answer(self.submission().route, result@),
                submission::headers_held(result@),
            ),
    {
        let label = text::concat2(self.submission.route(), ": ");
        submission::judge_handler(self.submission.route(), label.as_str(), result)
    }
}

// ---------------------------------------------------------------------------------------------
// Whole requests

/// Where a request stands once its validators have come to `results`, one after the other.
pub open spec fn reached(
    start: SubmissionModel,
    form: Seq<(Seq<char>, Seq<char>)>,
    results: Seq<CommandModel>,
) -> UrlEncodedModel
    decreases results.len(),
{
    if results.len() == 0 {
        advanced(start, form)
    } else {
        resumed(reached(start, form, results.drop_last()), form, results.last())
    }
}

/// Whether the first `n` fields of a form are those that the parameters ask for, in their order.
pub open spec fn keys_match(
    parameters: Seq<ParameterModel>,
    form: Seq<(Seq<char>, Seq<char>)>,
    n: int,
) -> bool {
    &&& n <= form.len()
    &&& n <= parameters.len()
    &&& forall|i: int| 0 <= i < n ==> (#[trigger] form[i]).0 == parameters[i].name
}

/// Whether a form holds the fields that the parameters ask for, in their order, and no others.
pub open spec fn is_complete(
    parameters: Seq<ParameterModel>,
    form: Seq<(Seq<char>, Seq<char>)>,
) -> bool {
    form.len() == parameters.len() && keys_match(parameters, form, form.len() as int)
}

/// The values of the first `n` fields.
pub open spec fn values(form: Seq<(Seq<char>, Seq<char>)>, n: int) -> Seq<Seq<char>> {
    form.take(n).map_values(|field: (Seq<char>, Seq<char>)| field.1)
}

/// The submission that the first `n` fields make up.
pub open spec fn after_fields(
    start: SubmissionModel,
    form: Seq<(Seq<char>, Seq<char>)>,
    n: int,
) -> SubmissionModel {
    SubmissionModel { arguments: values(form, n), ..start }
}

/// Whether the first `n` results are those of commands that did their work.
pub open spec fn first_passed(results: Seq<CommandModel>, n: int) -> bool {
    n <= results.len() && forall|k: int| 0 <= k < n ==> submission::passed(#[trigger] results[k])
}

/// The parameter at `i` is the one whose validator comes after `n` others.
pub open spec fn validated_at(parameters: Seq<ParameterModel>, n: int, i: int) -> bool {
    &&& 0 <= i < parameters.len()
    &&& parameters[i].validator is Some
    &&& submission::validators(parameters, i) == n
}

/// Where reading the fields from `n` on leads, if the fields before them match.
proof fn lemma_advanced(start: SubmissionModel, form: Seq<(Seq<char>, Seq<char>)>, n: int)
    requires
        0 <= n,
        keys_match(start.parameters, form, n),
    ensures
        match advanced(after_fields(start, form, n), form) {
            UrlEncodedModel::Validate { submission, name, validator } => exists|i: int|
                {
                    &&& n <= i
                    &&& #[trigger] keys_match(start.parameters, form, i + 1)
                    &&& submission::validators(start.parameters, i) == submission::validators(start.parameters, n)
                    &&& validated_at(start.parameters, submission::validators(start.parameters, n) as int, i)
                    &&& submission == after_fields(start, form, i + 1)
                    &&& name == start.parameters[i].name
                    &&& validator == start.parameters[i].validator->0
                },
            UrlEncodedModel::Handle(submission) => {
                &&& is_complete(start.parameters, form)
                &&& submission::validators(start.parameters, form.len() as int) == submission::validators(
                    start.parameters,
                    n,
                )
                &&& submission == after_fields(start, form, form.len() as int)
            },
            UrlEncodedModel::Refuse(_) => !is_complete(start.parameters, form),
        },
    decreases form.len() - n,
{
    let submission = after_fields(start, form, n);
    assert(submission.arguments.len() == n);
    if n < form.len() && n < start.parameters.len() && form[n].0 == start.parameters[n].name {
        assert(keys_match(start.parameters, form, n + 1));
        assert(submission.with(form[n].1) == after_fields(start, form, n + 1)) by {
            assert(values(form, n + 1) == values(form, n).push(form[n].1));
        }
        if start.parameters[n].validator is None {
            lemma_advanced(start, form, n + 1);
        }
    }
}

/// What every step of a request keeps.
proof fn lemma_reached(
    start: SubmissionModel,
    form: Seq<(Seq<char>, Seq<char>)>,
    results: Seq<CommandModel>,
)
    requires
        start.arguments.len() == 0,
    ensures
        match reached(start, form, results) {
            UrlEncodedModel::Validate { submission, name, validator } => {
                &&& first_passed(results, results.len() as int)
                &&& exists|i: int|
                    {
                        &&& #[trigger] keys_match(start.parameters, form, i + 1)
                        &&& validated_at(start.parameters, results.len() as int, i)
                        &&& submission == after_fields(start, form, i + 1)
                        &&& name == start.parameters[i].name
                        &&& validator == start.parameters[i].validator->0
                    }
            },
            UrlEncodedModel::Handle(submission) => {
                &&& is_complete(start.parameters, form)
                &&& first_passed(
                    results,
                    submission::validators(start.parameters, start.parameters.len() as int) as int,
                )
                &&& submission == after_fields(start, form, form.len() as int)
            },
            UrlEncodedModel::Refuse(_) => {
                ||| !is_complete(start.parameters, form)
                ||| exists|k: int|
                    0 <= k < results.len() && k < submission::validators(
                        start.parameters,
                        start.parameters.len() as int,
                    ) && !submission::passed(#[trigger] results[k])
            },
        },
    decreases results.len(),
{
    if results.len() == 0 {
        assert(values(form, 0) == start.arguments);
        lemma_advanced(start, form, 0);
    } else {
        let before = results.drop_last();
        lemma_reached(start, form, before);
        let total = submission::validators(start.parameters, start.parameters.len() as int);
        match reached(start, form, before) {
            UrlEncodedModel::Validate { submission, name, validator } => {
                let i = choose|i: int|
                    {
                        &&& #[trigger] keys_match(start.parameters, form, i + 1)
                        &&& validated_at(start.parameters, before.len() as int, i)
                        &&& submission == after_fields(start, form, i + 1)
                        &&& name == start.parameters[i].name
                        &&& validator == start.parameters[i].validator->0
                    };
                submission::law_validator_turns_down(submission.route, name, results.last());
                submission::lemma_validators_grow(
                    start.parameters,
                    i + 1,
                    start.parameters.len() as int,
                );
                assert forall|k: int| 0 <= k < before.len() implies submission::passed(
                    #[trigger] results[k],
                ) by {
                    assert(before[k] == results[k]);
                }
                if submission::passed(results.last()) {
                    lemma_advanced(start, form, i + 1);
                } else {
                    assert(!submission::passed(results[results.len() - 1]));
                }
            },
            UrlEncodedModel::Handle(_) => {
                assert forall|k: int| 0 <= k < total implies submission::passed(
                    #[trigger] results[k],
                ) by {
                    assert(before[k] == results[k]);
                }
            },
            UrlEncodedModel::Refuse(_) => {
                if is_complete(start.parameters, form) {
                    let k = choose|k: int|
                        0 <= k < before.len() && k < total && !submission::passed(
                            #[trigger] before[k],
                        );
                    assert(results[k] == before[k]);
                }
            },
        }
    }
}

/// The handler of an endpoint is run for a request if and only if the form holds exactly the
/// fields that the parameters ask for, in their order, and every validator has run and has done its
/// work. Its arguments are then the values of the fields, in their order.
pub proof fn law_when_the_handler_runs(
    start: SubmissionModel,
    form: Seq<(Seq<char>, Seq<char>)>,
    results: Seq<CommandModel>,
)
    requires
        start.arguments.len() == 0,
    ensures
        reached(start, form, results) is Handle <==> is_complete(start.parameters, form)
            && first_passed(
            results,
            submission::validators(start.parameters, start.parameters.len() as int) as int,
        ),
        reached(start, form, results) matches UrlEncodedModel::Handle(submission) ==> submission
            == after_fields(start, form, form.len() as int),
{
    lemma_reached(start, form, results);
    match reached(start, form, results) {
        UrlEncodedModel::Validate { submission, name, validator } => {
            let i = choose|i: int|
                {
                    &&& #[trigger] keys_match(start.parameters, form, i + 1)
                    &&& validated_at(start.parameters, results.len() as int, i)
                };
            submission::lemma_validators_grow(start.parameters, i + 1, start.parameters.len() as int);
        },
        _ => {},
    }
}

/// Validators run in the order of the parameters, each only after the ones before it have done
/// their work and after the field of its parameter has been read, and its arguments are the values
/// of the fields up to that one.
pub proof fn law_when_a_validator_runs(
    start: SubmissionModel,
    form: Seq<(Seq<char>, Seq<char>)>,
    results: Seq<CommandModel>,
)
    requires
        start.arguments.len() == 0,
        reached(start, form, results) is Validate,
    ensures
        first_passed(results, results.len() as int),
        exists|i: int|
            {
                &&& #[trigger] keys_match(start.parameters, form, i + 1)
                &&& validated_at(start.parameters, results.len() as int, i)
                &&& reached(start, form, results) == (UrlEncodedModel::Validate {
                    submission: after_fields(start, form, i + 1),
                    name: start.parameters[i].name,
                    validator: start.parameters[i].validator->0,
                })
            },
{
    lemma_reached(start, form, results);
}

/// A request that has been refused, or whose handler has to run, stays so whatever its validators
/// come to.
pub proof fn law_outcome_is_final(
    start: SubmissionModel,
    form: Seq<(Seq<char>, Seq<char>)>,
    results: Seq<CommandModel>,
    more: CommandModel,
)
    requires
        reached(start, form, results) !is Validate,
    ensures
        reached(start, form, results.push(more)) == reached(start, form, results),
{
    assert(results.push(more).drop_last() == results);
}

// ---------------------------------------------------------------------------------------------
// What each field leads to

/// The view of a form holds its keys and its values, field for field.
pub proof fn law_form(form: Seq<(String, String)>)
    ensures
        form_model(form).len() == form.len(),
        forall|i: int|
            0 <= i < form.len() ==> (#[trigger] form_model(form)[i]).0 == form[i].0@ && form_model(
                form,
            )[i].1 == form[i].1@,
{
}

/// What comes next is what the model of it says: the validator, the handler, or the refusal.
pub proof fn law_actions(
    action: UrlEncodedAction,
    model: UrlEncodedModel,
    form: Seq<(Seq<char>, Seq<char>)>,
)
    requires
        action.agrees(model, form),
    ensures
        action is Validate <==> model is Validate,
        action is Handle <==> model is Handle,
        action is Reply <==> model is Refuse,
        action matches UrlEncodedAction::Validate(validation) ==> validation.form() == form && model
            == (UrlEncodedModel::Validate {
            submission: validation.submission(),
            name: validation.name(),
            validator: validation.validator(),
        }),
        action matches UrlEncodedAction::Handle(handling) ==> model == UrlEncodedModel::Handle(
            handling.submission(),
        ),
        action matches UrlEncodedAction::Reply(reply) ==> (reply matches Reply::Refuse(fault)
            && model == UrlEncodedModel::Refuse(fault@)),
{
}

/// The submission after the first fields has their values.
proof fn lemma_after_fields(
    route: Seq<char>,
    endpoint: EndpointModel,
    form: Seq<(Seq<char>, Seq<char>)>,
    n: int,
)
    requires
        0 <= n <= form.len(),
    ensures
        after_fields(submission::fresh(route, endpoint), form, n) == (SubmissionModel {
            route,
            command: endpoint.command,
            parameters: endpoint.parameters,
            arguments: Seq::new(n as nat, |j: int| form[j].1),
        }),
{
    assert(values(form, n) == Seq::new(n as nat, |j: int| form[j].1));
}

/// A request whose first fields fit, and whose validators up to there have done their work, has these
/// fields behind it.
proof fn lemma_fields_behind(
    start: SubmissionModel,
    form: Seq<(Seq<char>, Seq<char>)>,
    results: Seq<CommandModel>,
    n: int,
)
    requires
        start.arguments.len() == 0,
        0 <= n,
        keys_match(start.parameters, form, n),
        results.len() == submission::validators(start.parameters, n),
        first_passed(results, results.len() as int),
    ensures
        reached(start, form, results) == advanced(after_fields(start, form, n), form),
    decreases n,
{
    if n == 0 {
        assert(values(form, 0) == start.arguments);
        assert(after_fields(start, form, 0) == start);
    } else {
        let parameter = start.parameters[n - 1];
        let earlier = after_fields(start, form, n - 1);
        assert(earlier.arguments.len() == n - 1);
        assert(form[n - 1].0 == parameter.name);
        assert(earlier.with(form[n - 1].1) == after_fields(start, form, n)) by {
            assert(values(form, n) == values(form, n - 1).push(form[n - 1].1));
        }
        if parameter.validator is Some {
            let before = results.drop_last();
            assert forall|k: int| 0 <= k < before.len() implies submission::passed(
                #[trigger] before[k],
            ) by {
                assert(before[k] == results[k]);
            }
            lemma_fields_behind(start, form, before, n - 1);
            assert(submission::passed(results[results.len() - 1]));
            submission::law_validator_turns_down(start.route, parameter.name, results.last());
        } else {
            lemma_fields_behind(start, form, results, n - 1);
        }
    }
}

/// A request is held against the parameters of its endpoint, field by field. Once its first `n` fields
/// have the names of the first `n` parameters and the validators of these have all run, exited with
/// code zero and written UTF-8 to their error streams:
///
/// * the validator of the next parameter, if the next field has its name, runs with the values so far;
/// * a field with another name is a bad request, and so is one for which there is no parameter, and a
///   parameter for which there is no field;
/// * where there is neither, the command of the endpoint runs with all values, in their order.
pub proof fn law_request(
    route: Seq<char>,
    endpoint: EndpointModel,
    form: Seq<(Seq<char>, Seq<char>)>,
    results: Seq<CommandModel>,
    n: int,
)
    requires
        0 <= n <= form.len(),
        n <= endpoint.parameters.len(),
        forall|i: int| 0 <= i < n ==> (#[trigger] form[i]).0 == endpoint.parameters[i].name,
        results.len() == endpoint.parameters.take(n).filter(
            |p: ParameterModel| p.validator is Some,
        ).len(),
        forall|i: int|
            0 <= i < results.len() ==> (#[trigger] results[i]) is Exited && results[i]->code == Some(
                0i32,
            ) && vstd::utf8::valid_utf8(results[i]->stderr),
    ensures
        ({
            let next = reached(submission::fresh(route, endpoint), form, results);
            let parameters = endpoint.parameters;
            &&& n == form.len() && n == parameters.len() ==> next == UrlEncodedModel::Handle(
                SubmissionModel {
                    route,
                    command: endpoint.command,
                    parameters,
                    arguments: Seq::new(n as nat, |j: int| form[j].1),
                },
            )
            &&& n == form.len() && n < parameters.len() ==> next == UrlEncodedModel::Refuse(
                FailureModel {
                    fault: Fault::BadRequest,
                    message: route + ": Field '"@ + parameters[n].name
                        + "' was missing from request"@,
                    cause: None,
                },
            )
            &&& n < form.len() && n == parameters.len() ==> next == UrlEncodedModel::Refuse(
                FailureModel {
                    fault: Fault::BadRequest,
                    message: route + ": Unexpected field '"@ + form[n].0 + "'"@,
                    cause: None,
                },
            )
            &&& n < form.len() && n < parameters.len() && form[n].0 != parameters[n].name ==> next
                == UrlEncodedModel::Refuse(
                FailureModel {
                    fault: Fault::BadRequest,
                    message: route + ": Unexpected parameter '"@ + form[n].0 + "'"@,
                    cause: None,
                },
            )
            &&& n < form.len() && n < parameters.len() && form[n].0 == parameters[n].name
                && parameters[n].validator is Some ==> next == (UrlEncodedModel::Validate {
                submission: SubmissionModel {
                    route,
                    command: endpoint.command,
                    parameters,
                    arguments: Seq::new((n + 1) as nat, |j: int| form[j].1),
                },
                name: parameters[n].name,
                validator: parameters[n].validator->0,
            })
        }),
{
    let start = submission::fresh(route, endpoint);
    submission::law_counts(endpoint.parameters, n, Seq::empty());
    assert(first_passed(results, results.len() as int)) by {
        assert forall|k: int| 0 <= k < results.len() implies submission::passed(
            #[trigger] results[k],
        ) by {
            assert(results[k] is Exited);
        }
    }
    lemma_fields_behind(start, form, results, n);
    let here = after_fields(start, form, n);
    assert(here.arguments.len() == n);
    lemma_after_fields(route, endpoint, form, n);
    if n < form.len() {
        lemma_after_fields(route, endpoint, form, n + 1);
        assert(here.with(form[n].1) == after_fields(start, form, n + 1)) by {
            assert(values(form, n + 1) == values(form, n).push(form[n].1));
        }
    }
}

/// A validator that did not exit with code zero, or that did not write UTF-8 to its error stream, ends
/// the request: as a bad one if it exited with another code, and else as an internal error.
pub proof fn law_validator_ends_request(
    start: SubmissionModel,
    form: Seq<(Seq<char>, Seq<char>)>,
    results: Seq<CommandModel>,
    result: CommandModel,
)
    requires
        reached(start, form, results) is Validate,
        !(result is Exited && vstd::utf8::valid_utf8(result->stderr) && result->code == Some(0i32)),
    ensures
        ({
            let waiting = reached(start, form, results);
            let next = reached(start, form, results.push(result));
            &&& next is Refuse
            &&& submission::validator_fault(
                waiting->Validate_submission.route,
                waiting->name,
                result,
            ) == Some(next->Refuse_0)
            &&& (next->Refuse_0).fault == Fault::BadRequest <==> result is Exited
                && vstd::utf8::valid_utf8(result->stderr) && result->code is Some
        }),
{
    assert(results.push(result).drop_last() == results);
    let waiting = reached(start, form, results);
    let route = waiting->Validate_submission.route;
    match result {
        CommandModel::NotRun(error) => {
            submission::law_validator(
                route,
                waiting->name,
                error,
                None,
                Seq::empty(),
                Seq::empty(),
            );
        },
        CommandModel::Exited { code, stdout, stderr } => {
            submission::law_validator(route, waiting->name, Seq::empty(), code, stdout, stderr);
        },
    }
}

} // verus!
