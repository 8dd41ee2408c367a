//! The closed set of conditions under which a request fails, and the one
//! place where a condition becomes a response: a status code and a body.

use vstd::prelude::*;

verus! {

/// Status of a request that was served.
pub const STATUS_OK: u16 = 200;

/// Status reported when the key of a read is not in the store.
pub const STATUS_NOT_FOUND: u16 = 404;

/// Status reported when a request outlived its deadline.
pub const STATUS_REQUEST_TIMEOUT: u16 = 408;

/// Status reported for a failure of no known kind.
pub const STATUS_INTERNAL_SERVER_ERROR: u16 = 500;

/// Status reported when admission control turned the request away.
pub const STATUS_SERVICE_UNAVAILABLE: u16 = 503;

/// `tower::timeout::error::Elapsed`, the error with which tower's timeout
/// stage abandons a request. It is declared so that it can stand in a
/// signature: nothing is claimed of it and nothing is read from it.
#[verifier::external_type_specification]
#[verifier::external_body]
pub struct ExElapsed(tower::timeout::error::Elapsed);

/// `tower::load_shed::error::Overloaded`, the error with which tower's
/// load-shedding stage turns a request away. It is declared so that it can
/// stand in a signature: nothing is claimed of it and nothing is read from
/// it.
#[verifier::external_type_specification]
#[verifier::external_body]
pub struct ExOverloaded(tower::load_shed::error::Overloaded);

/// Why a request did not produce its result.
#[derive(Debug, PartialEq, Eq)]
pub enum Failure {
    /// The key of a read has no value.
    NotFound,
    /// More requests were in flight than the service admits.
    Overloaded,
    /// The handler did not finish before the deadline.
    Elapsed,
    /// Anything else; the text is what the underlying error reported.
    Unclassified(String),
}

/// What goes back to the caller: a status code and a body.
#[derive(Debug, PartialEq, Eq)]
pub struct Response {
    pub status: u16,
    pub body: String,
}

impl Failure {
    /// The status code a failure is reported with.
    pub open spec fn spec_status(self) -> u16 {
        match self {
            Failure::NotFound => STATUS_NOT_FOUND,
            Failure::Overloaded => STATUS_SERVICE_UNAVAILABLE,
            Failure::Elapsed => STATUS_REQUEST_TIMEOUT,
            Failure::Unclassified(_) => STATUS_INTERNAL_SERVER_ERROR,
        }
    }

    /// The body a failure is reported with. A missing key is reported by its
    /// status alone; a failure of no known kind quotes the underlying error.
    pub open spec fn spec_message(self) -> Seq<char> {
        match self {
            Failure::NotFound => Seq::<char>::empty(),
            Failure::Overloaded => "service is overloaded, try again later"@,
            Failure::Elapsed => "request timed out"@,
            Failure::Unclassified(details) => "Unhandled internal error: "@ + details@,
        }
    }

    /// The status code this failure is reported with.
    pub fn status(&self) -> (code: u16)
        ensures
            code == self.spec_status(),
    {
        match self {
            Failure::NotFound => STATUS_NOT_FOUND,
            Failure::Overloaded => STATUS_SERVICE_UNAVAILABLE,
            Failure::Elapsed => STATUS_REQUEST_TIMEOUT,
            Failure::Unclassified(_) => STATUS_INTERNAL_SERVER_ERROR,
        }
    }

    /// The body this failure is reported with.
    pub fn message(&self) -> (text: String)
        ensures
            text@ == self.spec_message(),
    {
        match self {
            Failure::NotFound => String::new(),
            Failure::Overloaded => "service is overloaded, try again later".to_owned(),
            Failure::Elapsed => "request timed out".to_owned(),
            Failure::Unclassified(details) => {
                let mut text = "Unhandled internal error: ".to_owned();
                text.append(details.as_str());
                text
            },
        }
    }
}

/// The kind of an error that a stage around the handler raised, from what
/// a look at the error found: the deadline's error if it is one, admission
/// control's error if it is one, and the text that the error gives of
/// itself. The deadline is asked first, as the stage nearest the handler.
pub fn classify(
    elapsed: Option<&tower::timeout::error::Elapsed>,
    overloaded: Option<&tower::load_shed::error::Overloaded>,
    details: String,
) -> (failure: Failure)
    ensures
        elapsed is Some ==> failure == Failure::Elapsed,
        elapsed is None && overloaded is Some ==> failure == Failure::Overloaded,
        elapsed is None && overloaded is None ==> failure == Failure::Unclassified(details),
{
    if elapsed.is_some() {
        Failure::Elapsed
    } else if overloaded.is_some() {
        Failure::Overloaded
    } else {
        Failure::Unclassified(details)
    }
}

/// The text of an outcome: that of the body where the handling succeeded,
/// the failure as it is where it did not.
pub open spec fn outcome_text(outcome: Result<String, Failure>) -> Result<Seq<char>, Failure> {
    match outcome {
        Ok(body) => Ok(body@),
        Err(error) => Err(error),
    }
}

/// The status and the body with which an outcome is answered: status 200
/// and the body itself for a success, for a failure its own status and
/// message.
pub open spec fn answer(outcome: Result<Seq<char>, Failure>) -> (u16, Seq<char>) {
    match outcome {
        Ok(body) => (STATUS_OK, body),
        Err(error) => (error.spec_status(), error.spec_message()),
    }
}

/// Turns a failure into the response that reports it. Every failure of a
/// request passes through here once, whichever stage raised it.
pub fn handle_error(error: Failure) -> (response: Response)
    ensures
        (response.status, response.body@) == answer(Err(error)),
{
    let status = error.status();
    let body = error.message();
    Response { status, body }
}

/// The response to a request whose handling ended in `outcome`: the body
/// with status 200 where it succeeded, the failure's report where it did
/// not.
pub fn respond(outcome: Result<String, Failure>) -> (response: Response)
    ensures
        (response.status, response.body@) == answer(outcome_text(outcome)),
        outcome matches Ok(body) ==> response.body == body,
{
    match outcome {
        Ok(body) => Response { status: STATUS_OK, body },
        Err(error) => handle_error(error),
    }
}

} // verus!
