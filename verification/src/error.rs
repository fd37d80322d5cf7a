//! Error type of the client.
//!
//! HTTP statuses are held as their `u16` code and bodies as bytes, so that the contracts can
//! speak of them; the application layer converts to and from `http`/`bytes` types.

use vstd::prelude::*;
use crate::text::{decimal_text, push_decimal, push_str};
use url::ParseError;
use crate::retry::status_code_value;

verus! {

/// The error of a URL parse (`url::ParseError`), carried through unchanged.
#[verifier::external_type_specification]
#[verifier::external_body]
pub struct ExUrlParseError(ParseError);

/// `Clone` of `url::ParseError`, which derives `Clone` and `Copy`: the clone equals the
/// original.
pub assume_specification[ <ParseError as Clone>::clone ](e: &ParseError) -> (r: ParseError)
    ensures
        r == *e,
;

/// Error type for client operations.
#[derive(Debug, Clone)]
pub enum Error {
    /// The base URL (or an absolute request URL) did not parse.
    InvalidBaseUrl(url::ParseError),
    /// The transport failed.
    Transport(String),
    /// A non-success HTTP status.
    Http { status: u16, status_text: String, message: String, body: Option<Vec<u8>> },
    /// The response body did not deserialize.
    Deserialize { status: u16, message: String, body: Option<Vec<u8>> },
    /// The response body failed validation.
    Validation { status: u16, message: String, body: Option<Vec<u8>> },
    /// The request body, query or headers failed validation.
    RequestValidation { message: String },
    /// The request timed out.
    Timeout,
    /// The request was cancelled.
    Cancelled,
    /// No base URL was configured.
    MissingBaseUrl,
    /// A `:param` of the path template had no value.
    MissingPathParam(String),
    /// Retries were configured and every attempt failed.
    RetryExhausted { attempts: u32, last: Option<String> },
    /// A hook aborted the pipeline.
    Hook(String),
    /// The response body exceeded the configured limit.
    BodyTooLarge { limit: u64 },
    /// A streaming request body cannot be sent again on retry.
    NonReplayableBody,
    /// A header name did not parse.
    InvalidHeaderName(String),
    /// A header value did not parse.
    InvalidHeaderValue(String),
    /// A query value did not serialize.
    QuerySerialize(String),
    /// Strict schema mode: the route is not registered.
    SchemaRoute { method: String, path: String },
    /// Strict schema mode: a value did not validate.
    SchemaValidation { phase: String, message: String },
    /// Misconfiguration or malformed input.
    Config(String),
    /// File I/O failed.
    Io(String),
    /// Any other failure.
    Other(String),
}

/// The reason phrase that `http` gives a status code (`StatusCode::canonical_reason`), if
/// any.
pub uninterp spec fn canonical_reason_text(code: u16) -> Option<Seq<char>>;

/// A status from its code (`StatusCode::from_u16`).
///
/// Contract: accepted exactly for codes in `100..=999`, and the status has that code.
#[verifier::external_body]
fn status_from_u16(code: u16) -> (r: Option<http::StatusCode>)
    ensures
        r is Some <==> 100 <= code <= 999,
        r matches Some(s) ==> status_code_value(s) == code,
{
    http::StatusCode::from_u16(code).ok()
}

/// The reason phrase of a status (`StatusCode::canonical_reason`).
///
/// Contract: the named phrase of the status's code.
#[verifier::external_body]
fn status_reason(s: &http::StatusCode) -> (r: Option<String>)
    ensures
        match r {
            Some(t) => canonical_reason_text(status_code_value(*s)) == Some(t@),
            None => canonical_reason_text(status_code_value(*s)) is None,
        },
{
    s.canonical_reason().map(|t| t.to_string())
}

/// The reason phrase of a status code: the phrase `http` gives a code in `100..=999`, and
/// none for any other code (which `http` does not accept as a status).
pub open spec fn reason_phrase(code: u16) -> Option<Seq<char>> {
    if 100 <= code <= 999 {
        canonical_reason_text(code)
    } else {
        None
    }
}

/// The reason phrase of a status code (see [`reason_phrase`]).
pub(crate) fn canonical_reason(code: u16) -> (r: Option<String>)
    ensures
        match r {
            Some(t) => reason_phrase(code) == Some(t@),
            None => reason_phrase(code) is None,
        },
{
    match status_from_u16(code) {
        Some(s) => status_reason(&s),
        None => None,
    }
}

/// The message of a URL parse error (its `Display`).
pub uninterp spec fn parse_error_text(e: url::ParseError) -> Seq<char>;

/// The message of a URL parse error (`ParseError`'s `Display`).
///
/// Contract: the named message.
#[verifier::external_body]
fn url_error_text(e: &url::ParseError) -> (r: String)
    ensures
        r@ == parse_error_text(*e),
{
    e.to_string()
}

/// Whether a status code is a success (`200..=299`, `StatusCode::is_success`).
pub open spec fn is_success_code(code: u16) -> bool {
    200 <= code < 300
}

/// Whether a status code is a success (`200..=299`).
pub fn is_success_status(code: u16) -> (b: bool)
    ensures
        b == is_success_code(code),
        b == (200 <= code && code <= 299),
{
    200 <= code && code < 300
}

/// The reason phrase of `code`, or `fallback` when it has none.
pub open spec fn reason_or(code: u16, fallback: Seq<char>) -> Seq<char> {
    match reason_phrase(code) {
        Some(t) => t,
        None => fallback,
    }
}

fn reason_or_text(code: u16, fallback: &str) -> (r: String)
    ensures
        r@ == reason_or(code, fallback@),
{
    match canonical_reason(code) {
        Some(t) => t,
        None => {
            let mut r = String::new();
            push_str(&mut r, fallback);
            r
        },
    }
}

/// How a status code displays (`StatusCode`'s `Display`): the code, a space and the reason
/// phrase (`<unknown status code>` when there is none).
pub open spec fn status_display(code: u16) -> Seq<char> {
    decimal_text(code as nat) + " "@ + reason_or(code, "<unknown status code>"@)
}

/// The message of an error (its `Display`).
pub open spec fn error_text(e: Error) -> Seq<char> {
    match e {
        Error::InvalidBaseUrl(p) => "invalid base URL: "@ + parse_error_text(p),
        Error::Transport(m) => "transport error: "@ + m@,
        Error::Http { status, status_text, message, .. } => "HTTP "@ + status_display(status)
            + " "@ + status_text@ + ": "@ + message@,
        Error::Deserialize { message, .. } => "failed to deserialize response body: "@
            + message@,
        Error::Validation { message, .. } => "response validation failed: "@ + message@,
        Error::RequestValidation { message } => "request validation failed: "@ + message@,
        Error::Timeout => "request timed out"@,
        Error::Cancelled => "request was cancelled"@,
        Error::MissingBaseUrl => "client base URL is required; call ClientBuilder::base_url"@,
        Error::MissingPathParam(name) => "missing path parameter: "@ + name@,
        Error::RetryExhausted { attempts, .. } => "retries exhausted after "@ + decimal_text(
            attempts as nat,
        ) + " attempts"@,
        Error::Hook(m) => "hook error: "@ + m@,
        Error::BodyTooLarge { limit } => "response body exceeds limit of "@ + decimal_text(
            limit as nat,
        ) + " bytes"@,
        Error::NonReplayableBody => "request body is a stream and cannot be replayed on retry"@,
        Error::InvalidHeaderName(m) => "invalid header name: "@ + m@,
        Error::InvalidHeaderValue(m) => "invalid header value: "@ + m@,
        Error::QuerySerialize(m) => "query serialization failed: "@ + m@,
        Error::SchemaRoute { method, path } => "route not registered in schema: "@ + method@
            + " "@ + path@,
        Error::SchemaValidation { phase, message } => "schema validation failed ("@ + phase@
            + "): "@ + message@,
        Error::Config(m) => "configuration error: "@ + m@,
        Error::Io(m) => "I/O error: "@ + m@,
        Error::Other(m) => m@,
    }
}

/// Whether a borrowed body is the kept body.
pub open spec fn same_body(r: Option<&Vec<u8>>, body: Option<Vec<u8>>) -> bool {
    match body {
        Some(b) => r matches Some(x) && *x == b,
        None => r is None,
    }
}

impl Error {
    /// An HTTP error whose status text is the reason phrase of `status` (empty when it has
    /// none).
    pub fn http(status: u16, message: String, body: Option<Vec<u8>>) -> (e: Error)
        ensures
            e matches Error::Http { status: s, status_text: t, message: m, body: b } && s == status
                && t@ == reason_or(status, ""@) && m == message && b == body,
    {
        let status_text = reason_or_text(status, "");
        Error::Http { status, status_text, message, body }
    }

    /// An HTTP error with an explicit status text.
    pub fn http_with_status_text(
        status: u16,
        status_text: String,
        message: String,
        body: Option<Vec<u8>>,
    ) -> (e: Error)
        ensures
            e == (Error::Http { status, status_text, message, body }),
    {
        Error::Http { status, status_text, message, body }
    }

    /// The error for a non-success status: status text and message are the reason phrase of
    /// `status` (`request failed` when it has none).
    pub fn http_error_for_status(status: u16, body: Option<Vec<u8>>) -> (e: Error)
        ensures
            e matches Error::Http { status: s, status_text: t, message: m, body: b } && s == status
                && t@ == reason_or(status, "request failed"@) && m@ == reason_or(
                status,
                "request failed"@,
            ) && b == body,
    {
        let status_text = reason_or_text(status, "request failed");
        let message = reason_or_text(status, "request failed");
        Error::Http { status, status_text, message, body }
    }

    /// A transport error with the given message.
    pub fn transport_message(message: String) -> (e: Error)
        ensures
            e == Error::Transport(message),
    {
        Error::Transport(message)
    }

    /// A query serialization error with the given message.
    pub fn query_serialize(message: String) -> (e: Error)
        ensures
            e == Error::QuerySerialize(message),
    {
        Error::QuerySerialize(message)
    }

    /// The HTTP status of an HTTP, deserialization or validation error.
    pub fn status(&self) -> (r: Option<u16>)
        ensures
            r == match *self {
                Error::Http { status, .. } => Some(status),
                Error::Deserialize { status, .. } => Some(status),
                Error::Validation { status, .. } => Some(status),
                _ => None::<u16>,
            },
    {
        match self {
            Error::Http { status, .. } => Some(*status),
            Error::Deserialize { status, .. } => Some(*status),
            Error::Validation { status, .. } => Some(*status),
            _ => None,
        }
    }

    /// The status text of an HTTP error.
    pub fn status_text(&self) -> (r: Option<&str>)
        ensures
            match *self {
                Error::Http { status_text, .. } => r matches Some(t) && t@ == status_text@,
                _ => r is None,
            },
    {
        match self {
            Error::Http { status_text, .. } => Some(status_text.as_str()),
            _ => None,
        }
    }

    /// The response body that an HTTP, deserialization or validation error keeps, if any.
    pub open spec fn kept_body(self) -> Option<Vec<u8>> {
        match self {
            Error::Http { body, .. } => body,
            Error::Deserialize { body, .. } => body,
            Error::Validation { body, .. } => body,
            _ => None,
        }
    }

    /// The response body of an HTTP, deserialization or validation error, when kept.
    pub fn body(&self) -> (r: Option<&Vec<u8>>)
        ensures
            match *self {
                Error::Http { body, .. } => same_body(r, body),
                Error::Deserialize { body, .. } => same_body(r, body),
                Error::Validation { body, .. } => same_body(r, body),
                _ => r is None,
            },
    {
        match self {
            Error::Http { body, .. } => body.as_ref(),
            Error::Deserialize { body, .. } => body.as_ref(),
            Error::Validation { body, .. } => body.as_ref(),
            _ => None,
        }
    }

    /// Returns `true` when transport retries were configured but all attempts failed.
    pub fn is_retry_exhausted(&self) -> (b: bool)
        ensures
            b == (*self is RetryExhausted),
    {
        match self {
            Error::RetryExhausted { .. } => true,
            _ => false,
        }
    }

    /// Returns `true` when the request was cancelled.
    pub fn is_cancelled(&self) -> (b: bool)
        ensures
            b == (*self is Cancelled),
    {
        match self {
            Error::Cancelled => true,
            _ => false,
        }
    }

    /// Returns `true` when the response body exceeded its size limit.
    pub fn is_body_too_large(&self) -> (b: bool)
        ensures
            b == (*self is BodyTooLarge),
    {
        match self {
            Error::BodyTooLarge { .. } => true,
            _ => false,
        }
    }

    /// The size limit that the response body exceeded.
    pub fn body_too_large_limit(&self) -> (r: Option<u64>)
        ensures
            r == match *self {
                Error::BodyTooLarge { limit } => Some(limit),
                _ => None::<u64>,
            },
    {
        match self {
            Error::BodyTooLarge { limit } => Some(*limit),
            _ => None,
        }
    }

    /// Builds a hook failure.
    pub fn hook(message: String) -> (e: Error)
        ensures
            e == Error::Hook(message),
    {
        Error::Hook(message)
    }

    /// Returns `true` when the error is a hook failure.
    pub fn is_hook(&self) -> (b: bool)
        ensures
            b == (*self is Hook),
    {
        match self {
            Error::Hook(_) => true,
            _ => false,
        }
    }

    /// The error after `attempts` attempts that all failed, the last with `last`.
    pub fn retry_exhausted(attempts: u32, last: &Error) -> (e: Error)
        ensures
            e matches Error::RetryExhausted { attempts: a, last: Some(t) } && a == attempts && t@
                == error_text(*last),
    {
        let text = last.to_text();
        Error::RetryExhausted { attempts, last: Some(text) }
    }

    /// The message of the error (what its `Display` writes).
    pub fn to_text(&self) -> (r: String)
        ensures
            r@ == error_text(*self),
    {
        let mut r = String::new();
        match self {
            Error::InvalidBaseUrl(p) => {
                push_str(&mut r, "invalid base URL: ");
                let t = url_error_text(p);
                push_str(&mut r, t.as_str());
            },
            Error::Transport(m) => {
                push_str(&mut r, "transport error: ");
                push_str(&mut r, m.as_str());
            },
            Error::Http { status, status_text, message, .. } => {
                push_str(&mut r, "HTTP ");
                push_decimal(&mut r, *status as u64);
                push_str(&mut r, " ");
                let reason = reason_or_text(*status, "<unknown status code>");
                push_str(&mut r, reason.as_str());
                push_str(&mut r, " ");
                push_str(&mut r, status_text.as_str());
                push_str(&mut r, ": ");
                push_str(&mut r, message.as_str());
            },
            Error::Deserialize { message, .. } => {
                push_str(&mut r, "failed to deserialize response body: ");
                push_str(&mut r, message.as_str());
            },
            Error::Validation { message, .. } => {
                push_str(&mut r, "response validation failed: ");
                push_str(&mut r, message.as_str());
            },
            Error::RequestValidation { message } => {
                push_str(&mut r, "request validation failed: ");
                push_str(&mut r, message.as_str());
            },
            Error::Timeout => push_str(&mut r, "request timed out"),
            Error::Cancelled => push_str(&mut r, "request was cancelled"),
            Error::MissingBaseUrl => push_str(
                &mut r,
                "client base URL is required; call ClientBuilder::base_url",
            ),
            Error::MissingPathParam(name) => {
                push_str(&mut r, "missing path parameter: ");
                push_str(&mut r, name.as_str());
            },
            Error::RetryExhausted { attempts, .. } => {
                push_str(&mut r, "retries exhausted after ");
                push_decimal(&mut r, *attempts as u64);
                push_str(&mut r, " attempts");
            },
            Error::Hook(m) => {
                push_str(&mut r, "hook error: ");
                push_str(&mut r, m.as_str());
            },
            Error::BodyTooLarge { limit } => {
                push_str(&mut r, "response body exceeds limit of ");
                push_decimal(&mut r, *limit);
                push_str(&mut r, " bytes");
            },
            Error::NonReplayableBody => push_str(
                &mut r,
                "request body is a stream and cannot be replayed on retry",
            ),
            Error::InvalidHeaderName(m) => {
                push_str(&mut r, "invalid header name: ");
                push_str(&mut r, m.as_str());
            },
            Error::InvalidHeaderValue(m) => {
                push_str(&mut r, "invalid header value: ");
                push_str(&mut r, m.as_str());
            },
            Error::QuerySerialize(m) => {
                push_str(&mut r, "query serialization failed: ");
                push_str(&mut r, m.as_str());
            },
            Error::SchemaRoute { method, path } => {
                push_str(&mut r, "route not registered in schema: ");
                push_str(&mut r, method.as_str());
                push_str(&mut r, " ");
                push_str(&mut r, path.as_str());
            },
            Error::SchemaValidation { phase, message } => {
                push_str(&mut r, "schema validation failed (");
                push_str(&mut r, phase.as_str());
                push_str(&mut r, "): ");
                push_str(&mut r, message.as_str());
            },
            Error::Config(m) => {
                push_str(&mut r, "configuration error: ");
                push_str(&mut r, m.as_str());
            },
            Error::Io(m) => {
                push_str(&mut r, "I/O error: ");
                push_str(&mut r, m.as_str());
            },
            Error::Other(m) => push_str(&mut r, m.as_str()),
        }
        proof {
            assert(r@ =~= error_text(*self));
        }
        r
    }
}

/// The success check is exactly the 2xx range: a status code counts as a success if and
/// only if it lies between 200 and 299.
pub proof fn law_success_is_2xx(code: u16)
    ensures
        is_success_code(code) <==> (200 <= code && code <= 299),
{
}

} // verus!
