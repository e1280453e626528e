//! Errors of the API client and the classification of HTTP responses.

use vstd::prelude::*;
use vstd::string::{to_string_from_display_ensures, StringExecFns};

use reqwest::Error as TransportError;
use serde_json::Error as DecodeError;

use crate::text::{decimal, push_decimal};

verus! {

/// `reqwest::Error`, the HTTP client's transport error: declared so that
/// `Error` can carry it; nothing is claimed of it.
#[verifier::external_type_specification]
#[verifier::external_body]
pub struct ExTransportError(TransportError);

/// `serde_json::Error`, the JSON decoding error: declared so that `Error` can
/// carry it; nothing is claimed of it.
#[verifier::external_type_specification]
#[verifier::external_body]
pub struct ExDecodeError(DecodeError);

/// All errors the client can return.
#[derive(Debug)]
pub enum Error {
    /// 401: missing or invalid API key.
    Authentication { message: String, body: String },
    /// 403: the plan does not include access to this resource.
    PlanAccess { message: String, body: String },
    /// 404: card, set or game does not exist.
    NotFound { message: String, body: String },
    /// 429: rate limit exceeded.
    RateLimit { message: String, body: String },
    /// Any other unsuccessful response from the API.
    Api { status: u16, message: String, body: String },
    /// Network or transport error.
    Transport(TransportError),
    /// JSON decode error.
    Decode(DecodeError),
}

/// The HTTP status an error stands for; `None` for transport and decode errors.
pub open spec fn error_status(e: &Error) -> Option<u16> {
    match e {
        Error::Authentication { .. } => Some(401),
        Error::PlanAccess { .. } => Some(403),
        Error::NotFound { .. } => Some(404),
        Error::RateLimit { .. } => Some(429),
        Error::Api { status, .. } => Some(*status),
        _ => None,
    }
}

impl Error {
    /// Returns the HTTP status code if this error originated from an API
    /// response, or `None` for transport / decode errors.
    pub fn status(&self) -> (r: Option<u16>)
        ensures
            r == error_status(self),
    {
        match self {
            Error::Authentication { .. } => Some(401),
            Error::PlanAccess { .. } => Some(403),
            Error::NotFound { .. } => Some(404),
            Error::RateLimit { .. } => Some(429),
            Error::Api { status, .. } => Some(*status),
            _ => None,
        }
    }
}

/// The text an error reads as; transport and decode errors read as their
/// prefix followed by the outside error's own `to_string` text.
pub open spec fn error_text(e: &Error, t: Seq<char>) -> bool {
    match e {
        Error::Authentication { message, .. } => t == "authentication failed: "@ + message@,
        Error::PlanAccess { message, .. } => t == "plan access denied: "@ + message@,
        Error::NotFound { message, .. } => t == "not found: "@ + message@,
        Error::RateLimit { message, .. } => t == "rate limited: "@ + message@,
        Error::Api { status, message, .. } => t == "api error (HTTP "@ + decimal(*status as nat)
            + "): "@ + message@,
        Error::Transport(x) => exists|inner: String|
            #[trigger] to_string_from_display_ensures::<TransportError>(x, inner) && t
                == "transport error: "@ + inner@,
        Error::Decode(x) => exists|inner: String|
            #[trigger] to_string_from_display_ensures::<DecodeError>(x, inner) && t
                == "decode error: "@ + inner@,
    }
}

impl Error {
    /// The error's message, as it displays.
    pub fn to_string(&self) -> (t: String)
        ensures
            error_text(self, t@),
    {
        match self {
            Error::Authentication { message, .. } => {
                let mut t = "authentication failed: ".to_owned();
                t.append(message.as_str());
                t
            },
            Error::PlanAccess { message, .. } => {
                let mut t = "plan access denied: ".to_owned();
                t.append(message.as_str());
                t
            },
            Error::NotFound { message, .. } => {
                let mut t = "not found: ".to_owned();
                t.append(message.as_str());
                t
            },
            Error::RateLimit { message, .. } => {
                let mut t = "rate limited: ".to_owned();
                t.append(message.as_str());
                t
            },
            Error::Api { status, message, .. } => {
                let mut t = "api error (HTTP ".to_owned();
                push_decimal(&mut t, *status as u64);
                t.append("): ");
                t.append(message.as_str());
                t
            },
            Error::Transport(e) => {
                let mut t = "transport error: ".to_owned();
                let inner = e.to_string();
                t.append(inner.as_str());
                assert(t@ == "transport error: "@ + inner@);
                t
            },
            Error::Decode(e) => {
                let mut t = "decode error: ".to_owned();
                let inner = e.to_string();
                t.append(inner.as_str());
                assert(t@ == "decode error: "@ + inner@);
                t
            },
        }
    }
}

/// Whether an HTTP status is a success: 200 to 299.
pub open spec fn is_success_status(status: u16) -> bool {
    200 <= status < 300
}

/// Whether an HTTP status is a success: 200 to 299.
pub fn is_success(status: u16) -> (r: bool)
    ensures
        r == is_success_status(status),
{
    200 <= status && status < 300
}

/// The message of an error response: the one the body carries, else
/// `HTTP <status>`.
pub open spec fn status_message(status: u16, extracted: Option<Seq<char>>) -> Seq<char> {
    match extracted {
        Some(m) => m,
        None => "HTTP "@ + decimal(status as nat),
    }
}

/// `e` is the error that a response with this status, message and body maps
/// to: 401, 403, 404 and 429 have variants of their own, any other status
/// becomes `Api`.
pub open spec fn is_response_error(e: &Error, status: u16, message: Seq<char>, body: Seq<char>) -> bool {
    match e {
        Error::Authentication { message: m, body: b } => status == 401 && m@ == message && b@
            == body,
        Error::PlanAccess { message: m, body: b } => status == 403 && m@ == message && b@ == body,
        Error::NotFound { message: m, body: b } => status == 404 && m@ == message && b@ == body,
        Error::RateLimit { message: m, body: b } => status == 429 && m@ == message && b@ == body,
        Error::Api { status: s, message: m, body: b } => status != 401 && status != 403 && status
            != 404 && status != 429 && *s == status && m@ == message && b@ == body,
        _ => false,
    }
}

/// The message of an error response: the body's own, else `HTTP <status>`.
pub fn response_message(status: u16, extracted: Option<String>) -> (m: String)
    ensures
        m@ == status_message(
            status,
            match extracted {
                Some(s) => Some(s@),
                None => None,
            },
        ),
{
    match extracted {
        Some(m) => m,
        None => {
            let mut m = "HTTP ".to_owned();
            push_decimal(&mut m, status as u64);
            m
        },
    }
}

/// Maps an unsuccessful response to its error. `extracted` is the `error`
/// field of the JSON body, where the body has one.
pub fn from_response(status: u16, body: String, extracted: Option<String>) -> (e: Error)
    ensures
        is_response_error(
            &e,
            status,
            status_message(
                status,
                match extracted {
                    Some(s) => Some(s@),
                    None => None,
                },
            ),
            body@,
        ),
{
    let message = response_message(status, extracted);
    if status == 401 {
        Error::Authentication { message, body }
    } else if status == 403 {
        Error::PlanAccess { message, body }
    } else if status == 404 {
        Error::NotFound { message, body }
    } else if status == 429 {
        Error::RateLimit { message, body }
    } else {
        Error::Api { status, message, body }
    }
}

/// Checks a response before its body is decoded: an unsuccessful status gives
/// its error, a successful one hands the body on for decoding, whatever it
/// holds (an empty body then fails as a decode error).
pub fn check_response(status: u16, body: String, extracted: Option<String>) -> (r: Result<
    String,
    Error,
>)
    ensures
        !is_success_status(status) ==> r is Err && is_response_error(
            &r->Err_0,
            status,
            status_message(
                status,
                match extracted {
                    Some(s) => Some(s@),
                    None => None,
                },
            ),
            body@,
        ),
        is_success_status(status) ==> r is Ok && r->Ok_0@ == body@,
{
    if !is_success(status) {
        return Err(from_response(status, body, extracted));
    }
    Ok(body)
}

/// Every error that a response maps to reports that response's status back.
pub proof fn lemma_response_error_status(e: &Error, status: u16, message: Seq<char>, body: Seq<char>)
    requires
        is_response_error(e, status, message, body),
    ensures
        error_status(e) == Some(status),
{
}

} // verus!
