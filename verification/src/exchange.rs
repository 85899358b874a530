//! Classification of one exchange attempt against the token endpoint: the
//! error taxonomy, the success range, and the failure event handed to the
//! logging collaborator.

use vstd::prelude::*;

use crate::TokenResponse;

verus! {

/// Exactly one of these, or a response, comes out of one exchange attempt.
#[derive(Debug, Clone, PartialEq, Eq, Structural)]
pub enum Error {
    /// The response body is not a token response.
    ParseError,
    /// The connection failed before any response arrived.
    SendRequestError,
    /// A response arrived but its body could not be read.
    PayloadError,
    /// A response arrived with a status outside the success range.
    StatusCode(u16),
}

/// A structured failure event for the logging collaborator: the status and
/// raw body of a response outside the success range.
pub struct LogEvent {
    pub status: u16,
    pub body: Vec<u8>,
}

/// The HTTP success range.
pub open spec fn spec_is_success(status: u16) -> bool {
    200 <= status < 300
}

/// Whether a status is in the HTTP success range.
pub fn is_success_status(status: u16) -> (r: bool)
    ensures
        r == spec_is_success(status),
{
    200 <= status && status < 300
}

/// The failure event of a response: exactly one event, carrying the status
/// and the body, when and only when the status is outside the success
/// range.
pub fn failure_event(status: u16, body: Vec<u8>) -> (r: Option<LogEvent>)
    ensures
        r is Some <==> !spec_is_success(status),
        r matches Some(ev) ==> ev.status == status && ev.body@ == body@,
{
    if is_success_status(status) {
        None
    } else {
        Some(LogEvent { status, body })
    }
}

/// Classify one received response. A status outside the success range is
/// `Err(StatusCode(status))` whatever the body holds; a success status
/// yields the parsed body, or `Err(ParseError)` when it is not a token
/// response. Transport failures never reach this point: they become
/// `SendRequestError` (nothing received) or `PayloadError` (body
/// unreadable) before a status and body exist.
pub fn interpret_response(status: u16, body: &Vec<u8>) -> (r: Result<TokenResponse, Error>)
    ensures
        !spec_is_success(status) ==> r == Result::<TokenResponse, Error>::Err(
            Error::StatusCode(status),
        ),
        spec_is_success(status) ==> (r is Ok <==> crate::json::spec_parse_token_response(body@)
            is Some),
        spec_is_success(status) ==> (r matches Ok(t)
            ==> crate::json::spec_parse_token_response(body@) matches Some(f)
            && crate::json::response_matches_fields(t, f)),
        spec_is_success(status) && r is Err ==> r == Result::<TokenResponse, Error>::Err(
            Error::ParseError,
        ),
{
    if !is_success_status(status) {
        Err(Error::StatusCode(status))
    } else {
        crate::json::parse_token_response(body)
    }
}

} // verus!
