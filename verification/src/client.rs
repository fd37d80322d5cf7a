//! Client configuration: the builder of the settings every request starts from.
//!
//! The retry predicate (`P`), credential functions (`F`, `A`) and JSON parser (`J`) are
//! carried without looking inside them. Hooks, plugins and the transport are attached by the
//! application layer around the built [`ClientConfig`].

use vstd::prelude::*;
use vstd::utf8::encode_utf8;
use std::time::Duration;
use url::Url;
use crate::auth::{valid_header_bytes, Auth};
use crate::error::Error;
use crate::headers::{
    can_set_named, has_room, insert_header, parse_request_header, parsed_header_name,
    with_header,
};
use crate::retry::{header_values, RetryPolicy};
use crate::url_build::{parse_url, url_parse, url_text};

verus! {

/// How many bytes a custom retry predicate may read of a streaming body when the client
/// does not say (64 KiB).
pub const RETRY_BODY_PEEK_DEFAULT: u64 = 65536;

/// Shared client configuration, as built by [`ClientBuilder::build`].
pub struct ClientConfig<P, F, A, J> {
    /// Base URL joined with request paths.
    pub base_url: Url,
    /// Default per-request timeout when the request does not override it.
    pub timeout: Option<Duration>,
    /// Default retry policy for requests that do not set their own.
    pub retry: Option<RetryPolicy<P>>,
    /// Default authentication for requests without their own.
    pub auth: Option<Auth<F, A>>,
    /// Headers every request starts from.
    pub default_headers: http::HeaderMap,
    /// Limit on concurrent in-flight requests (including retries).
    pub max_in_flight: Option<usize>,
    /// Client-wide custom JSON parser.
    pub json_parser: Option<J>,
    /// Default maximum response body size.
    pub max_response_bytes: Option<u64>,
    /// Maximum bytes read from a streaming body for a custom retry predicate.
    pub retry_body_peek_bytes: u64,
}

/// Builder for a [`ClientConfig`]; a base URL is required.
pub struct ClientBuilder<P, F, A, J> {
    pub base_url: Option<Url>,
    pub timeout: Option<Duration>,
    pub retry: Option<RetryPolicy<P>>,
    pub auth: Option<Auth<F, A>>,
    pub default_headers: http::HeaderMap,
    pub max_in_flight: Option<usize>,
    pub max_response_bytes: Option<u64>,
    pub retry_body_peek_bytes: Option<u64>,
    pub json_parser: Option<J>,
}

/// An empty header map (`HeaderMap::new`).
///
/// Contract: it holds no header.
#[verifier::external_body]
fn empty_header_map() -> (r: http::HeaderMap)
    ensures
        header_values(r).dom().is_empty(),
{
    http::HeaderMap::new()
}

impl<P, F, A, J> ClientBuilder<P, F, A, J> {
    /// An empty builder: no base URL, no defaults, no headers.
    pub fn new() -> (r: Self)
        ensures
            r.base_url is None,
            r.timeout is None,
            r.retry is None,
            r.auth is None,
            header_values(r.default_headers).dom().is_empty(),
            r.max_in_flight is None,
            r.max_response_bytes is None,
            r.retry_body_peek_bytes is None,
            r.json_parser is None,
    {
        ClientBuilder {
            base_url: None,
            timeout: None,
            retry: None,
            auth: None,
            default_headers: empty_header_map(),
            max_in_flight: None,
            max_response_bytes: None,
            retry_body_peek_bytes: None,
            json_parser: None,
        }
    }

    /// Sets the base URL (required); a text that does not parse as an absolute URL is
    /// [`Error::InvalidBaseUrl`].
    pub fn base_url(self, base_url: &str) -> (r: Result<Self, Error>)
        ensures
            match url_parse(base_url@) {
                Ok(t) => r matches Ok(b) && b.base_url matches Some(u) && url_text(u) == t && b
                    == (ClientBuilder { base_url: b.base_url, ..self }),
                Err(e) => r matches Err(Error::InvalidBaseUrl(x)) && x == e,
            },
    {
        match parse_url(base_url) {
            Ok(u) => {
                let mut b = self;
                b.base_url = Some(u);
                Ok(b)
            },
            Err(e) => Err(Error::InvalidBaseUrl(e)),
        }
    }

    /// Sets the default request timeout.
    pub fn timeout(self, timeout: Duration) -> (r: Self)
        ensures
            r == (ClientBuilder { timeout: Some(timeout), ..self }),
    {
        let mut b = self;
        b.timeout = Some(timeout);
        b
    }

    /// Sets the default retry policy for all requests.
    pub fn retry(self, policy: RetryPolicy<P>) -> (r: Self)
        ensures
            r == (ClientBuilder { retry: Some(policy), ..self }),
    {
        let mut b = self;
        b.retry = Some(policy);
        b
    }

    /// Sets default authentication for all requests.
    pub fn auth(self, auth: Auth<F, A>) -> (r: Self)
        ensures
            r == (ClientBuilder { auth: Some(auth), ..self }),
    {
        let mut b = self;
        b.auth = Some(auth);
        b
    }

    /// Adds a default header applied to every request (replacing earlier values of its
    /// name); a name or value that does not parse is an error.
    pub fn default_header(self, key: &str, value: &str) -> (r: Result<Self, Error>)
        requires
            parsed_header_name(encode_utf8(key@)) is Some && valid_header_bytes(encode_utf8(value@))
                ==> has_room(header_values(self.default_headers)),
        ensures
            match parsed_header_name(encode_utf8(key@)) {
                None => r matches Err(Error::InvalidHeaderName(m)) && m@ == "invalid HTTP header name"@,
                Some(n) => if valid_header_bytes(encode_utf8(value@)) {
                    r matches Ok(b) && header_values(b.default_headers) == with_header(
                        header_values(self.default_headers),
                        n,
                        encode_utf8(value@),
                    ) && b == (ClientBuilder { default_headers: b.default_headers, ..self })
                } else {
                    r matches Err(Error::InvalidHeaderValue(m)) && m@
                        == "failed to parse header value"@
                },
            },
    {
        match parse_request_header(key, value) {
            Ok((name, v)) => {
                let mut b = self;
                insert_header(&mut b.default_headers, name, v);
                Ok(b)
            },
            Err(e) => Err(e),
        }
    }

    /// [`ClientBuilder::default_header`] where the header map has room for the name; `None`
    /// (the builder dropped) where it has not, the case in which setting the header would
    /// panic.
    pub fn try_default_header(self, key: &str, value: &str) -> (r: Option<Result<Self, Error>>)
        ensures
            match parsed_header_name(encode_utf8(key@)) {
                Some(_) => r is None <==> !has_room(header_values(self.default_headers)),
                None => r is Some,
            },
            r matches Some(x) ==> match parsed_header_name(encode_utf8(key@)) {
                None => x matches Err(Error::InvalidHeaderName(m)) && m@ == "invalid HTTP header name"@,
                Some(n) => if valid_header_bytes(encode_utf8(value@)) {
                    x matches Ok(b) && header_values(b.default_headers) == with_header(
                        header_values(self.default_headers),
                        n,
                        encode_utf8(value@),
                    ) && b == (ClientBuilder { default_headers: b.default_headers, ..self })
                } else {
                    x matches Err(Error::InvalidHeaderValue(m)) && m@
                        == "failed to parse header value"@
                },
            },
    {
        if can_set_named(&self.default_headers, key) {
            Some(self.default_header(key, value))
        } else {
            None
        }
    }

    /// Limits how many requests the client may have in flight at once (including retries).
    pub fn max_in_flight(self, limit: usize) -> (r: Self)
        ensures
            r == (ClientBuilder { max_in_flight: Some(limit), ..self }),
    {
        let mut b = self;
        b.max_in_flight = Some(limit);
        b
    }

    /// Maximum response body size in bytes when a request does not set its own.
    pub fn max_response_bytes(self, limit: u64) -> (r: Self)
        ensures
            r == (ClientBuilder { max_response_bytes: Some(limit), ..self }),
    {
        let mut b = self;
        b.max_response_bytes = Some(limit);
        b
    }

    /// Maximum bytes read from a streaming body when a custom retry predicate is configured.
    pub fn retry_body_peek_bytes(self, limit: u64) -> (r: Self)
        ensures
            r == (ClientBuilder { retry_body_peek_bytes: Some(limit), ..self }),
    {
        let mut b = self;
        b.retry_body_peek_bytes = Some(limit);
        b
    }

    /// Sets a custom JSON parser for all responses of the client.
    pub fn json_parser_fn(self, parser: J) -> (r: Self)
        ensures
            r == (ClientBuilder { json_parser: Some(parser), ..self }),
    {
        let mut b = self;
        b.json_parser = Some(parser);
        b
    }

    /// Builds the configuration: [`Error::MissingBaseUrl`] without a base URL; otherwise the
    /// settings as given, the retry peek budget defaulting to [`RETRY_BODY_PEEK_DEFAULT`].
    pub fn build(self) -> (r: Result<ClientConfig<P, F, A, J>, Error>)
        ensures
            self.base_url is None ==> r == Err::<ClientConfig<P, F, A, J>, Error>(Error::MissingBaseUrl),
            self.base_url matches Some(u) ==> r == Ok::<ClientConfig<P, F, A, J>, Error>(
                ClientConfig {
                    base_url: u,
                    timeout: self.timeout,
                    retry: self.retry,
                    auth: self.auth,
                    default_headers: self.default_headers,
                    max_in_flight: self.max_in_flight,
                    json_parser: self.json_parser,
                    max_response_bytes: self.max_response_bytes,
                    retry_body_peek_bytes: match self.retry_body_peek_bytes {
                        Some(l) => l,
                        None => RETRY_BODY_PEEK_DEFAULT,
                    },
                },
            ),
    {
        let base_url = match self.base_url {
            Some(u) => u,
            None => return Err(Error::MissingBaseUrl),
        };
        let retry_body_peek_bytes = match self.retry_body_peek_bytes {
            Some(l) => l,
            None => RETRY_BODY_PEEK_DEFAULT,
        };
        Ok(
            ClientConfig {
                base_url,
                timeout: self.timeout,
                retry: self.retry,
                auth: self.auth,
                default_headers: self.default_headers,
                max_in_flight: self.max_in_flight,
                json_parser: self.json_parser,
                max_response_bytes: self.max_response_bytes,
                retry_body_peek_bytes,
            },
        )
    }
}

} // verus!
