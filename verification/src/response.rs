//! A response with a fully buffered body: status checks, the body as text or bytes, and
//! the mapping of a body parser's outcome to the client's errors.

use vstd::prelude::*;
use vstd::utf8::{decode_utf8, valid_utf8};
use crate::error::{is_success_code, is_success_status, reason_or, Error};

verus! {

/// The text of bytes with invalid UTF-8 sequences replaced (`String::from_utf8_lossy`).
pub uninterp spec fn utf8_lossy(bytes: Seq<u8>) -> Seq<char>;

/// Decodes bytes as UTF-8, replacing invalid sequences (`String::from_utf8_lossy`).
///
/// Contract: the named text; valid UTF-8 decodes as itself (the documented borrowed case).
#[verifier::external_body]
fn lossy_text(bytes: &[u8]) -> (r: String)
    ensures
        r@ == utf8_lossy(bytes@),
        valid_utf8(bytes@) ==> r@ == decode_utf8(bytes@),
{
    String::from_utf8_lossy(bytes).into_owned()
}

/// Whether `e` is the error that a non-success `status` gives: an HTTP error whose status
/// text and message are the reason phrase (`request failed` when there is none), with the
/// given kept body.
pub open spec fn is_status_error(e: Error, status: u16, body: Option<Seq<u8>>) -> bool {
    &&& e matches Error::Http { status: s, status_text: t, message: m, body: b }
    &&& s == status
    &&& t@ == reason_or(status, "request failed"@)
    &&& m@ == reason_or(status, "request failed"@)
    &&& match body {
        Some(x) => b matches Some(y) && y@ == x,
        None => b is None,
    }
}

/// Whether `e` is the deserialization error of a body with the given status and message.
pub open spec fn is_deserialize_error(e: Error, status: u16, message: Seq<char>, body: Seq<u8>) -> bool {
    &&& e matches Error::Deserialize { status: s, message: m, body: b }
    &&& s == status
    &&& m@ == message
    &&& b matches Some(y) && y@ == body
}

/// HTTP response whose body is already buffered in memory.
#[derive(Debug)]
pub struct Response {
    status: u16,
    headers: http::HeaderMap,
    body: Vec<u8>,
    url: Option<url::Url>,
}

impl Response {
    /// The status code.
    pub closed spec fn spec_status(&self) -> u16 {
        self.status
    }

    /// The buffered body.
    pub closed spec fn spec_body(&self) -> Seq<u8> {
        self.body@
    }

    /// The buffered body as held.
    pub closed spec fn spec_body_vec(&self) -> Vec<u8> {
        self.body
    }

    /// The final request URL, when known.
    pub closed spec fn spec_url(&self) -> Option<url::Url> {
        self.url
    }

    /// The response headers.
    pub closed spec fn spec_headers(&self) -> http::HeaderMap {
        self.headers
    }

    /// A response from its parts.
    pub fn new(status: u16, headers: http::HeaderMap, body: Vec<u8>, url: Option<url::Url>) -> (r:
        Response)
        ensures
            r.spec_status() == status,
            r.spec_headers() == headers,
            r.spec_body() == body@,
            r.spec_body_vec() == body,
            r.spec_url() == url,
    {
        Response { status, headers, body, url }
    }

    /// HTTP status code.
    pub fn status(&self) -> (r: u16)
        ensures
            r == self.spec_status(),
    {
        self.status
    }

    /// Response headers.
    pub fn headers(&self) -> (r: &http::HeaderMap)
        ensures
            *r == self.spec_headers(),
    {
        &self.headers
    }

    /// The fully buffered body.
    pub fn bytes(&self) -> (r: &Vec<u8>)
        ensures
            r@ == self.spec_body(),
    {
        &self.body
    }

    /// Final request URL when available.
    pub fn url(&self) -> (r: Option<&url::Url>)
        ensures
            match self.spec_url() {
                Some(u) => r matches Some(x) && *x == u,
                None => r is None,
            },
    {
        match &self.url {
            Some(u) => Some(u),
            None => None,
        }
    }

    /// Returns `true` for 2xx status codes.
    pub fn is_success(&self) -> (b: bool)
        ensures
            b == is_success_code(self.spec_status()),
    {
        is_success_status(self.status)
    }

    /// Returns an error if the status is not a success: an HTTP error whose status text and
    /// message are the reason phrase (`request failed` when there is none), keeping the body.
    pub fn error_for_status(&self) -> (r: Result<(), Error>)
        ensures
            is_success_code(self.spec_status()) <==> r is Ok,
            r matches Err(e) ==> is_status_error(e, self.spec_status(), Some(self.spec_body())),
    {
        if is_success_status(self.status) {
            return Ok(());
        }
        let copy = self.body.clone();
        assert(copy@ =~= self.body@);
        Err(Error::http_error_for_status(self.status, Some(copy)))
    }

    /// Reads the body as UTF-8 (invalid sequences replaced) after checking for a success
    /// status.
    pub fn into_text(self) -> (r: Result<String, Error>)
        ensures
            is_success_code(self.spec_status()) <==> r is Ok,
            r matches Ok(t) ==> t@ == utf8_lossy(self.spec_body()) && (valid_utf8(self.spec_body())
                ==> t@ == decode_utf8(self.spec_body())),
            r matches Err(e) ==> is_status_error(e, self.spec_status(), Some(self.spec_body())),
    {
        match self.error_for_status() {
            Ok(()) => Ok(lossy_text(self.body.as_slice())),
            Err(e) => Err(e),
        }
    }

    /// Returns the body after checking for a success status.
    pub fn into_bytes_checked(self) -> (r: Result<Vec<u8>, Error>)
        ensures
            is_success_code(self.spec_status()) <==> r is Ok,
            r matches Ok(b) ==> b@ == self.spec_body(),
            r matches Err(e) ==> is_status_error(e, self.spec_status(), Some(self.spec_body())),
    {
        match self.error_for_status() {
            Ok(()) => Ok(self.body),
            Err(e) => Err(e),
        }
    }

    /// Parses the body with `parse` after checking for a success status; a parse failure
    /// becomes a deserialization error that keeps the status and the body.
    pub fn into_json_with<T, F: FnOnce(&Vec<u8>) -> Result<T, String>>(self, parse: F) -> (r:
        Result<T, Error>)
        requires
            is_success_code(self.spec_status()) ==> call_requires(parse, (&self.spec_body_vec(),)),
        ensures
            !is_success_code(self.spec_status()) ==> (r matches Err(e) && is_status_error(
                e,
                self.spec_status(),
                Some(self.spec_body()),
            )),
            is_success_code(self.spec_status()) ==> exists|out: Result<T, String>|
                #![auto]
                call_ensures(parse, (&self.spec_body_vec(),), out) && match out {
                    Ok(v) => r == Ok::<T, Error>(v),
                    Err(m) => r matches Err(e) && is_deserialize_error(
                        e,
                        self.spec_status(),
                        m@,
                        self.spec_body(),
                    ),
                },
    {
        match self.error_for_status() {
            Err(e) => Err(e),
            Ok(()) => {
                let out = parse(&self.body);
                parsed_body(self.status, self.body, out)
            },
        }
    }

    /// Splits into status, headers and body.
    pub fn into_parts(self) -> (r: (u16, http::HeaderMap, Vec<u8>))
        ensures
            r.0 == self.spec_status(),
            r.1 == self.spec_headers(),
            r.2@ == self.spec_body(),
    {
        (self.status, self.headers, self.body)
    }
}

/// The outcome of a body parser as the client reports it: the value, or a deserialization
/// error with the parser's message, the status and the body.
pub fn parsed_body<T>(status: u16, body: Vec<u8>, out: Result<T, String>) -> (r: Result<T, Error>)
    ensures
        match out {
            Ok(v) => r == Ok::<T, Error>(v),
            Err(m) => r matches Err(e) && is_deserialize_error(e, status, m@, body@),
        },
{
    match out {
        Ok(v) => Ok(v),
        Err(message) => Err(Error::Deserialize { status, message, body: Some(body) }),
    }
}

/// Reads a buffered response as a success value or an API error value, by status: on a 2xx
/// status the body is parsed with `parse_ok` (a failure is a deserialization error, as in
/// [`Response::into_json_with`]); otherwise it is parsed with `parse_err`, and when that fails
/// the result is an HTTP error with the message `failed to deserialize error response body`
/// that keeps the body.
pub fn into_api_result<T, E, FT, FE>(response: Response, parse_ok: FT, parse_err: FE) -> (r: Result<
    Result<T, E>,
    Error,
>) where FT: FnOnce(&Vec<u8>) -> Result<T, String>, FE: FnOnce(&Vec<u8>) -> Option<E>
    requires
        is_success_code(response.spec_status()) ==> call_requires(parse_ok, (&response.spec_body_vec(),)),
        !is_success_code(response.spec_status()) ==> call_requires(parse_err, (&response.spec_body_vec(),)),
    ensures
        is_success_code(response.spec_status()) ==> exists|out: Result<T, String>|
            #![auto]
            call_ensures(parse_ok, (&response.spec_body_vec(),), out) && match out {
                Ok(v) => r == Ok::<Result<T, E>, Error>(Ok(v)),
                Err(m) => r matches Err(e) && is_deserialize_error(
                    e,
                    response.spec_status(),
                    m@,
                    response.spec_body(),
                ),
            },
        !is_success_code(response.spec_status()) ==> exists|out: Option<E>|
            #![auto]
            call_ensures(parse_err, (&response.spec_body_vec(),), out) && match out {
                Some(v) => r == Ok::<Result<T, E>, Error>(Err(v)),
                None => r matches Err(e) && is_api_body_error(e, response.spec_status(), response.spec_body()),
            },
{
    if response.is_success() {
        match response.into_json_with(parse_ok) {
            Ok(v) => Ok(Ok(v)),
            Err(e) => Err(e),
        }
    } else {
        let status = response.status;
        let body = response.body;
        match parse_err(&body) {
            Some(v) => Ok(Err(v)),
            None => Err(Error::http(status, crate::json::owned("failed to deserialize error response body"), Some(body))),
        }
    }
}

/// Whether `e` is the error of an API error body that did not parse: an HTTP error with the
/// status, its reason phrase as status text (empty when there is none), the message
/// `failed to deserialize error response body`, and the body.
pub open spec fn is_api_body_error(e: Error, status: u16, body: Seq<u8>) -> bool {
    &&& e matches Error::Http { status: s, status_text: t, message: m, body: b }
    &&& s == status
    &&& t@ == reason_or(status, ""@)
    &&& m@ == "failed to deserialize error response body"@
    &&& b matches Some(y) && y@ == body
}

impl Error {
    /// Parses the kept response body of an HTTP, deserialization or validation error with
    /// `parse` (for API error payloads); `None` when the error keeps no body or the parse
    /// fails.
    pub fn api_json<T, FP: FnOnce(&Vec<u8>) -> Option<T>>(&self, parse: FP) -> (r: Option<T>)
        requires
            forall|b: &Vec<u8>| call_requires(parse, (b,)),
        ensures
            match self.kept_body() {
                None => r is None,
                Some(b) => exists|out: Option<T>| #![auto] call_ensures(parse, (&b,), out) && r == out,
            },
    {
        match self.body() {
            None => None,
            Some(b) => parse(b),
        }
    }
}

/// Whether `e` is the validation error of a parsed body with the given status and message.
pub open spec fn is_validation_error(e: Error, status: u16, message: Seq<char>, body: Seq<u8>) -> bool {
    &&& e matches Error::Validation { status: s, message: m, body: b }
    &&& s == status
    &&& m@ == message
    &&& b matches Some(y) && y@ == body
}

/// Parses a body with `parse`, then checks the value with `validate`: a parse failure is a
/// deserialization error and a rejected value a validation error, both keeping the status
/// and the body.
pub fn deserialize_validated<T, P, V>(body: Vec<u8>, status: u16, parse: P, validate: V) -> (r: Result<
    T,
    Error,
>) where P: FnOnce(&Vec<u8>) -> Result<T, String>, V: FnOnce(&T) -> Result<(), String>
    requires
        call_requires(parse, (&body,)),
        forall|t: &T| call_requires(validate, (t,)),
    ensures
        exists|out: Result<T, String>|
            #![trigger call_ensures(parse, (&body,), out)]
            call_ensures(parse, (&body,), out) && match out {
                Err(m) => r matches Err(e) && is_deserialize_error(e, status, m@, body@),
                Ok(v) => exists|check: Result<(), String>|
                    #![trigger call_ensures(validate, (&v,), check)]
                    call_ensures(validate, (&v,), check) && match check {
                        Ok(()) => r == Ok::<T, Error>(v),
                        Err(m) => r matches Err(e) && is_validation_error(e, status, m@, body@),
                    },
            },
{
    let out = parse(&body);
    match out {
        Err(message) => Err(Error::Deserialize { status, message, body: Some(body) }),
        Ok(v) => {
            let check = validate(&v);
            match check {
                Ok(()) => Ok(v),
                Err(message) => Err(Error::Validation { status, message, body: Some(body) }),
            }
        },
    }
}

} // verus!
