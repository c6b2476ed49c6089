//! Failed requests: what the client is told and what the log says.

use crate::response;
use crate::response::{Response, ResponseModel};
use crate::text;
use axum::http::header::{InvalidHeaderName, InvalidHeaderValue};
use axum::http::status::InvalidStatusCode;
use core::num::ParseIntError;
use std::string::FromUtf8Error;
use vstd::prelude::*;

verus! {

/// Whose fault it is that a request failed.
#[derive(Clone, Copy, Debug, PartialEq, Eq, Structural)]
pub enum Fault {
    BadRequest,
    InternalServerError,
}

/// The error behind a failure, for the log.
#[derive(Debug)]
pub enum Cause {
    /// The error stream of a command is not UTF-8.
    Stderr(FromUtf8Error),
    /// The output of a command is not UTF-8.
    Output(FromUtf8Error),
    /// The first line of an output is not a number.
    Number(ParseIntError),
    /// The number in the first line of an output is not a status code.
    Status(InvalidStatusCode),
    /// A header has a name that is none.
    HeaderName(InvalidHeaderName),
    /// A header has a value that is none.
    HeaderValue(InvalidHeaderValue),
}

/// Which error stands behind a failure.
pub enum CauseModel {
    Stderr,
    Output,
    Number,
    Status,
    HeaderName,
    HeaderValue,
}

impl View for Cause {
    type V = CauseModel;

    open spec fn view(&self) -> CauseModel {
        match self {
            Cause::Stderr(_) => CauseModel::Stderr,
            Cause::Output(_) => CauseModel::Output,
            Cause::Number(_) => CauseModel::Number,
            Cause::Status(_) => CauseModel::Status,
            Cause::HeaderName(_) => CauseModel::HeaderName,
            Cause::HeaderValue(_) => CauseModel::HeaderValue,
        }
    }
}

/// A request that failed.
#[derive(Debug)]
pub struct Failure {
    pub fault: Fault,
    pub message: String,
    pub cause: Option<Cause>,
}

/// The view of a `Failure`.
#[verifier::ext_equal]
pub struct FailureModel {
    pub fault: Fault,
    pub message: Seq<char>,
    pub cause: Option<CauseModel>,
}

impl View for Failure {
    type V = FailureModel;

    open spec fn view(&self) -> FailureModel {
        FailureModel {
            fault: self.fault,
            message: self.message@,
            cause: match self.cause {
                Some(cause) => Some(cause@),
                None => None,
            },
        }
    }
}

/// A failure that the client is to blame for.
pub open spec fn bad_request(message: Seq<char>) -> FailureModel {
    FailureModel { fault: Fault::BadRequest, message, cause: None }
}

/// A failure that the client is not to blame for.
pub open spec fn internal_error(message: Seq<char>) -> FailureModel {
    FailureModel { fault: Fault::InternalServerError, message, cause: None }
}

/// A failure that the client is not to blame for, with the error behind it.
pub open spec fn caused_error(message: Seq<char>, cause: CauseModel) -> FailureModel {
    FailureModel { fault: Fault::InternalServerError, message, cause: Some(cause) }
}

/// What the client is told: nothing but whose fault it is.
pub open spec fn refusal(fault: Fault) -> ResponseModel {
    match fault {
        Fault::BadRequest => ResponseModel {
            status: 400,
            headers: response::without_headers(),
            body: "Bad request.\n"@,
        },
        Fault::InternalServerError => ResponseModel {
            status: 500,
            headers: response::without_headers(),
            body: "Internal server error.\n"@,
        },
    }
}

/// What the client is told of a request that ends as `outcome`.
pub open spec fn told(outcome: Result<ResponseModel, FailureModel>) -> ResponseModel {
    match outcome {
        Ok(answer) => answer,
        Err(failure) => refusal(failure.fault),
    }
}

impl Failure {
    /// A failure that the client is to blame for.
    pub fn bad_request(message: String) -> (failure: Failure)
        ensures
            failure@ == bad_request(message@),
    {
        Failure { fault: Fault::BadRequest, message, cause: None }
    }

    /// A failure that the client is not to blame for.
    pub fn internal_error(message: String) -> (failure: Failure)
        ensures
            failure@ == internal_error(message@),
    {
        Failure { fault: Fault::InternalServerError, message, cause: None }
    }

    /// A failure that the client is not to blame for, with the error behind it.
    pub fn caused_error(message: String, cause: Cause) -> (failure: Failure)
        ensures
            failure@ == caused_error(message@, cause@),
    {
        Failure { fault: Fault::InternalServerError, message, cause: Some(cause) }
    }

    /// What the client is told.
    pub fn response(&self) -> (response: Response)
        ensures
            response@ == refusal(self@.fault),
    {
        match self.fault {
            Fault::BadRequest => Response {
                status: 400,
                headers: response::no_headers(),
                body: "Bad request.\n".to_owned(),
            },
            Fault::InternalServerError => Response {
                status: 500,
                headers: response::no_headers(),
                body: "Internal server error.\n".to_owned(),
            },
        }
    }

    /// What the log says.
    pub fn log_line(&self) -> (line: String)
        ensures
            line@ == "postal: "@ + self@.message,
    {
        text::concat2("postal: ", self.message.as_str())
    }
}

/// A refused request is answered by whose fault it is alone: two failures that share it get the
/// same answer, so an answer gives nothing away of the reason, and a bad request is never answered
/// as an internal error.
pub proof fn law_refusals_give_no_reason(first: FailureModel, second: FailureModel)
    ensures
        refusal(first.fault) == refusal(second.fault) <==> first.fault == second.fault,
        refusal(first.fault).headers == response::without_headers(),
{
}

/// A bad request is answered with status 400, an internal error with status 500, each without
/// headers and with the name of the status for a body.
pub proof fn law_refusals(fault: Fault)
    ensures
        fault == Fault::BadRequest ==> refusal(fault).status == 400 && refusal(fault).body
            == "Bad request.\n"@,
        fault == Fault::InternalServerError ==> refusal(fault).status == 500 && refusal(fault).body
            == "Internal server error.\n"@,
        refusal(fault).headers == Map::<Seq<char>, Seq<Seq<u8>>>::empty(),
{
}

/// The view of a failure holds whose fault it is and what the log says, and which error stands
/// behind it.
pub proof fn law_view(failure: Failure, cause: Cause)
    ensures
        failure@.fault == failure.fault,
        failure@.message == failure.message@,
        failure@.cause is Some <==> failure.cause is Some,
        failure.cause matches Some(cause) ==> failure@.cause == Some(cause@),
        cause@ is Stderr <==> cause is Stderr,
        cause@ is Output <==> cause is Output,
        cause@ is Number <==> cause is Number,
        cause@ is Status <==> cause is Status,
        cause@ is HeaderName <==> cause is HeaderName,
        cause@ is HeaderValue <==> cause is HeaderValue,
{
}

/// What a request failed of is kept as it is: whose fault it is, the message and the error behind it.
pub proof fn law_failures(message: Seq<char>, cause: CauseModel)
    ensures
        bad_request(message) == (FailureModel { fault: Fault::BadRequest, message, cause: None }),
        internal_error(message) == (FailureModel {
            fault: Fault::InternalServerError,
            message,
            cause: None,
        }),
        caused_error(message, cause) == (FailureModel {
            fault: Fault::InternalServerError,
            message,
            cause: Some(cause),
        }),
{
}

/// What the client is told of a request that ends with an answer is that answer, and of one that
/// fails, whose fault it is.
pub proof fn law_told(outcome: Result<ResponseModel, FailureModel>)
    ensures
        outcome matches Ok(answer) ==> told(outcome) == answer,
        outcome matches Err(failure) ==> told(outcome).status == if failure.fault
            == Fault::BadRequest {
            400u16
        } else {
            500u16
        },
        outcome matches Err(failure) ==> told(outcome) == refusal(failure.fault),
{
}

} // verus!
