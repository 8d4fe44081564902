//! User-facing messages for network errors: the classification is verified;
//! reading the error's kind off the network crate's error value is trusted.

use vstd::prelude::*;

verus! {

/// Turns a network error into a message fit for the user.
pub trait ReqwestErrorExt {
    fn to_user_friendly_message(&self) -> String;
}

#[verifier::external_type_specification]
#[verifier::external_body]
pub struct ExReqwestError(reqwest::Error);

/// Relies on `reqwest::Error::is_connect`.
#[verifier::external_body]
fn err_is_connect(e: &reqwest::Error) -> bool {
    e.is_connect()
}

/// Relies on `reqwest::Error::is_request`.
#[verifier::external_body]
fn err_is_request(e: &reqwest::Error) -> bool {
    e.is_request()
}

/// Relies on `reqwest::Error::is_timeout`.
#[verifier::external_body]
fn err_is_timeout(e: &reqwest::Error) -> bool {
    e.is_timeout()
}

/// Relies on `reqwest::Error::is_decode`.
#[verifier::external_body]
fn err_is_decode(e: &reqwest::Error) -> bool {
    e.is_decode()
}

/// The message each kind of network failure earns: connection and request
/// errors first, then timeouts, then response-decoding errors, then a
/// catch-all.
pub open spec fn network_error_message_spec(
    is_connect: bool,
    is_request: bool,
    is_timeout: bool,
    is_decode: bool,
) -> Seq<char> {
    if is_connect || is_request {
        "Connection Error. Please check your internet connection and try again"@
    } else if is_timeout {
        "The request timed out. The news server might be slow right now."@
    } else if is_decode {
        "Received an unexpected response format from the server."@
    } else {
        "A network error occurred. Please try again later."@
    }
}

/// Picks the user-facing message for a network failure's kind.
pub fn network_error_message(
    is_connect: bool,
    is_request: bool,
    is_timeout: bool,
    is_decode: bool,
) -> (m: String)
    ensures
        m@ == network_error_message_spec(is_connect, is_request, is_timeout, is_decode),
{
    if is_connect || is_request {
        "Connection Error. Please check your internet connection and try again".to_owned()
    } else if is_timeout {
        "The request timed out. The news server might be slow right now.".to_owned()
    } else if is_decode {
        "Received an unexpected response format from the server.".to_owned()
    } else {
        "A network error occurred. Please try again later.".to_owned()
    }
}

impl ReqwestErrorExt for reqwest::Error {
    fn to_user_friendly_message(&self) -> String {
        network_error_message(
            err_is_connect(self),
            err_is_request(self),
            err_is_timeout(self),
            err_is_decode(self),
        )
    }
}

} // verus!
