//! The per-request builder: path parameters, query, headers, body and the settings that a
//! request may override.
//!
//! The builder carries the client (`C`), a streaming body type (`S`), the retry predicate
//! (`P`), the credential functions (`F`, `A`), the cancellation token (`K`) and the JSON
//! parser (`J`) without looking inside them; the application layer supplies them and sends
//! the request.

use vstd::prelude::*;
use vstd::utf8::encode_utf8;
use std::time::Duration;
use indexmap::IndexMap;
use url::Url;
use crate::auth::{valid_header_bytes, Auth};
use crate::error::Error;
use crate::headers::{
    can_set_named, content_type_bytes, default_content_type, has_room, insert_header, parse_request_header, parsed_header_name, set_content_type, with_header,
};
use crate::json::Json;
use crate::pipeline::HttpBody;
use crate::query_json::query_value_of;
use crate::retry::{header_values, RetryPolicy};
use crate::url_build::{
    form_body, form_serialize, merge_queries, merged_entries, param_set, parse_url, query_entries,
    url_parse, url_text,
    query_map_insert, query_map_new, upsert, ParamMap, QueryValue,
};
use crate::json::json_view;

verus! {

/// `application/json`.
pub open spec fn json_content_type() -> Seq<u8> {
    seq![97u8, 112, 112, 108, 105, 99, 97, 116, 105, 111, 110, 47, 106, 115, 111, 110]
}

/// `application/octet-stream`.
pub open spec fn octet_stream_content_type() -> Seq<u8> {
    seq![
        97u8, 112, 112, 108, 105, 99, 97, 116, 105, 111, 110, 47, 111, 99, 116, 101, 116, 45,
        115, 116, 114, 101, 97, 109,
    ]
}

/// `application/x-www-form-urlencoded`.
pub open spec fn form_content_type() -> Seq<u8> {
    seq![
        97u8, 112, 112, 108, 105, 99, 97, 116, 105, 111, 110, 47, 120, 45, 119, 119, 119, 45,
        102, 111, 114, 109, 45, 117, 114, 108, 101, 110, 99, 111, 100, 101, 100,
    ]
}

/// The headers after defaulting `Content-Type` to `value`: unchanged when one is set.
pub open spec fn defaulted(h: Map<Seq<u8>, Seq<Seq<u8>>>, value: Seq<u8>) -> Map<
    Seq<u8>,
    Seq<Seq<u8>>,
> {
    if h.contains_key(content_type_bytes()) {
        h
    } else {
        with_header(h, content_type_bytes(), value)
    }
}

/// The parameters after setting each pair in order (a later pair for a key wins).
pub open spec fn params_set(
    e: Seq<(Seq<char>, Seq<char>)>,
    pairs: Seq<(Seq<char>, Seq<char>)>,
) -> Seq<(Seq<char>, Seq<char>)>
    decreases pairs.len(),
{
    if pairs.len() == 0 {
        e
    } else {
        let prev = params_set(e, pairs.drop_last());
        param_set(prev, pairs.last().0, pairs.last().1)
    }
}

/// Fluent builder for a single HTTP request.
pub struct RequestBuilder<C, S, P, F, A, K, J> {
    /// The client that sends the request.
    pub client: C,
    /// HTTP method.
    pub method: http::Method,
    /// Path template (may hold `:param` segments and a `?query` suffix).
    pub path: String,
    /// Base URL overriding the client's, for this request only.
    pub base_url: Option<Url>,
    /// Path parameters.
    pub params: ParamMap,
    /// Query parameters, in insertion order.
    pub query: IndexMap<String, QueryValue>,
    /// Request headers (starting from the client's defaults).
    pub headers: http::HeaderMap,
    /// Request body.
    pub body: HttpBody<S>,
    /// Timeout overriding the client's.
    pub timeout: Option<Duration>,
    /// Retry policy overriding the client's.
    pub retry: Option<RetryPolicy<P>>,
    /// Authentication overriding the client's.
    pub auth: Option<Auth<F, A>>,
    /// Cancels the request and its retry sleeps when triggered.
    pub cancellation: Option<K>,
    /// Whether a non-2xx status is returned as an error.
    pub throw_on_error: bool,
    /// Response body limit in bytes for this request.
    pub max_response_bytes: Option<u64>,
    /// How many bytes a custom retry predicate may read of a streaming body.
    pub retry_body_peek_bytes: Option<u64>,
    /// JSON parser overriding the client's.
    pub json_parser: Option<J>,
    /// Whether typed validation runs on the response.
    pub validate_response: bool,
}

impl<C, S, P, F, A, K, J> RequestBuilder<C, S, P, F, A, K, J> {
    /// A request for `method` and `path` that starts from the client's default headers,
    /// timeout, retry policy and authentication, with no parameters, query or body.
    pub fn new(
        client: C,
        method: http::Method,
        path: String,
        default_headers: http::HeaderMap,
        timeout: Option<Duration>,
        retry: Option<RetryPolicy<P>>,
        auth: Option<Auth<F, A>>,
    ) -> (r: Self)
        ensures
            r.client == client,
            r.method == method,
            r.path == path,
            r.base_url is None,
            r.params.entries() == Seq::<(Seq<char>, Seq<char>)>::empty(),
            query_entries(r.query) == Seq::<(Seq<char>, (bool, Seq<Seq<char>>))>::empty(),
            r.headers == default_headers,
            r.body is Empty,
            r.timeout == timeout,
            r.retry == retry,
            r.auth == auth,
            r.cancellation is None,
            !r.throw_on_error,
            r.max_response_bytes is None,
            r.retry_body_peek_bytes is None,
            r.json_parser is None,
            r.validate_response,
    {
        RequestBuilder {
            client,
            method,
            path,
            base_url: None,
            params: ParamMap::new(),
            query: query_map_new(),
            headers: default_headers,
            body: HttpBody::Empty,
            timeout,
            retry,
            auth,
            cancellation: None,
            throw_on_error: false,
            max_response_bytes: None,
            retry_body_peek_bytes: None,
            json_parser: None,
            validate_response: true,
        }
    }

    /// Sets a path template parameter (`:key` in the path).
    pub fn param(self, key: String, value: String) -> (r: Self)
        ensures
            r.params.entries() == param_set(self.params.entries(), key@, value@),
            r == (RequestBuilder { params: r.params, ..self }),
    {
        let mut b = self;
        b.params.insert(key, value);
        b
    }

    /// Sets path parameters from pairs, in order (a later pair for a key wins).
    pub fn params_iter(self, params: Vec<(String, String)>) -> (r: Self)
        ensures
            r.params.entries() == params_set(
                self.params.entries(),
                params@.map_values(|p: (String, String)| (p.0@, p.1@)),
            ),
            r == (RequestBuilder { params: r.params, ..self }),
    {
        let ghost pairs = params@.map_values(|p: (String, String)| (p.0@, p.1@));
        let mut b = self;
        let mut i: usize = 0;
        while i < params.len()
            invariant
                i <= params@.len(),
                pairs == params@.map_values(|p: (String, String)| (p.0@, p.1@)),
                b.params.entries() == params_set(self.params.entries(), pairs.take(i as int)),
                b == (RequestBuilder { params: b.params, ..self }),
            decreases params@.len() - i,
        {
            b.params.insert(params[i].0.clone(), params[i].1.clone());
            assert(pairs.take(i + 1).drop_last() =~= pairs.take(i as int));
            assert(pairs.take(i + 1).last() == pairs[i as int]);
            i = i + 1;
        }
        assert(pairs.take(params@.len() as int) =~= pairs);
        b
    }

    /// Sets path parameters from pairs in order; the same as [`RequestBuilder::params_iter`]
    /// (substitution follows the `:segment` order of the path).
    pub fn params_ordered(self, params: Vec<(String, String)>) -> (r: Self)
        ensures
            r.params.entries() == params_set(
                self.params.entries(),
                params@.map_values(|p: (String, String)| (p.0@, p.1@)),
            ),
            r == (RequestBuilder { params: r.params, ..self }),
    {
        self.params_iter(params)
    }

    /// Sets path parameters from a map.
    pub fn params(self, params: ParamMap) -> (r: Self)
        ensures
            r.params.entries() == params_set(self.params.entries(), params.entries()),
            r == (RequestBuilder { params: r.params, ..self }),
    {
        let mut b = self;
        let n = params.len();
        let mut i: usize = 0;
        while i < n
            invariant
                n == params.entries().len(),
                i <= n,
                b.params.entries() == params_set(
                    self.params.entries(),
                    params.entries().take(i as int),
                ),
                b == (RequestBuilder { params: b.params, ..self }),
            decreases n - i,
        {
            let (k, v) = params.entry(i);
            b.params.insert(k.clone(), v.clone());
            assert(params.entries().take(i + 1).drop_last() =~= params.entries().take(i as int));
            i = i + 1;
        }
        assert(params.entries().take(n as int) =~= params.entries());
        b
    }
}

impl<C, S, P, F, A, K, J> RequestBuilder<C, S, P, F, A, K, J> {
    /// Overrides the client base URL for this request only; a text that does not parse as an
    /// absolute URL is [`Error::InvalidBaseUrl`].
    pub fn base_url(self, base_url: &str) -> (r: Result<Self, Error>)
        ensures
            match url_parse(base_url@) {
                Ok(t) => r matches Ok(b) && b.base_url matches Some(u) && url_text(u) == t && b
                    == (RequestBuilder { base_url: b.base_url, ..self }),
                Err(e) => r matches Err(Error::InvalidBaseUrl(x)) && x == e,
            },
    {
        match parse_url(base_url) {
            Ok(u) => {
                let mut b = self;
                b.base_url = Some(u);
                Ok(b)
            },
            Err(e) => Err(Error::InvalidBaseUrl(e)),
        }
    }

    /// Adds a query string parameter (a scalar; an existing key takes the new value in
    /// place).
    pub fn query(self, key: String, value: String) -> (r: Self)
        ensures
            query_entries(r.query) == upsert(query_entries(self.query), key@, (false, seq![value@])),
            r == (RequestBuilder { query: r.query, ..self }),
    {
        let mut b = self;
        query_map_insert(&mut b.query, key, QueryValue::Scalar(value));
        b
    }

    /// Sets several query parameters, in order; existing keys take the new values in place.
    pub fn queries(self, query: IndexMap<String, QueryValue>) -> (r: Self)
        ensures
            query_entries(r.query) == merged_entries(query_entries(self.query), query_entries(query)),
            r == (RequestBuilder { query: r.query, ..self }),
    {
        let mut b = self;
        let mut q = query_map_new();
        std::mem::swap(&mut q, &mut b.query);
        b.query = merge_queries(q, &query);
        b
    }

    /// Uses a serialized value as one query parameter (see
    /// [`QueryValue::from_serializable`]).
    pub fn query_json(self, key: String, value: &Json) -> (r: Self)
        ensures
            query_entries(r.query) == upsert(
                query_entries(self.query),
                key@,
                query_value_of(json_view(*value)),
            ),
            r == (RequestBuilder { query: r.query, ..self }),
    {
        let mut b = self;
        let v = QueryValue::from_serializable(value);
        query_map_insert(&mut b.query, key, v);
        b
    }

    /// Adds a request header (replacing earlier values of its name); a name or value that
    /// does not parse is an error (see [`parse_request_header`]).
    pub fn header(self, key: &str, value: &str) -> (r: Result<Self, Error>)
        requires
            parsed_header_name(encode_utf8(key@)) is Some && valid_header_bytes(encode_utf8(value@))
                ==> has_room(header_values(self.headers)),
        ensures
            match parsed_header_name(encode_utf8(key@)) {
                None => r matches Err(Error::InvalidHeaderName(m)) && m@ == "invalid HTTP header name"@,
                Some(n) => if valid_header_bytes(encode_utf8(value@)) {
                    r matches Ok(b) && header_values(b.headers) == with_header(
                        header_values(self.headers),
                        n,
                        encode_utf8(value@),
                    ) && b == (RequestBuilder { headers: b.headers, ..self })
                } else {
                    r matches Err(Error::InvalidHeaderValue(m)) && m@
                        == "failed to parse header value"@
                },
            },
    {
        match parse_request_header(key, value) {
            Ok((name, v)) => {
                let mut b = self;
                insert_header(&mut b.headers, name, v);
                Ok(b)
            },
            Err(e) => Err(e),
        }
    }

    /// [`RequestBuilder::header`] where the header map has room for the name; `None` (the
    /// builder dropped) where it has not, the case in which setting the header would panic.
    pub fn try_header(self, key: &str, value: &str) -> (r: Option<Result<Self, Error>>)
        ensures
            match parsed_header_name(encode_utf8(key@)) {
                Some(_) => r is None <==> !has_room(header_values(self.headers)),
                None => r is Some,
            },
            r matches Some(x) ==> match parsed_header_name(encode_utf8(key@)) {
                None => x matches Err(Error::InvalidHeaderName(m)) && m@ == "invalid HTTP header name"@,
                Some(n) => if valid_header_bytes(encode_utf8(value@)) {
                    x matches Ok(b) && header_values(b.headers) == with_header(
                        header_values(self.headers),
                        n,
                        encode_utf8(value@),
                    ) && b == (RequestBuilder { headers: b.headers, ..self })
                } else {
                    x matches Err(Error::InvalidHeaderValue(m)) && m@
                        == "failed to parse header value"@
                },
            },
    {
        if can_set_named(&self.headers, key) {
            Some(self.header(key, value))
        } else {
            None
        }
    }

    /// Sets an already serialized JSON body, and `Content-Type: application/json` unless a
    /// content type is set.
    pub fn json(self, serialized: Vec<u8>) -> (r: Self)
        requires
            has_room(header_values(self.headers)),
        ensures
            r.body matches HttpBody::Bytes(x) && x@ == serialized@,
            header_values(r.headers) == defaulted(header_values(self.headers), json_content_type()),
            r == (RequestBuilder { body: r.body, headers: r.headers, ..self }),
    {
        let mut b = self;
        b.body = HttpBody::Bytes(serialized);
        let ct: Vec<u8> = vec![97u8, 112, 112, 108, 105, 99, 97, 116, 105, 111, 110, 47, 106, 115, 111, 110];
        assert(ct@ =~= json_content_type());
        default_content_type(&mut b.headers, ct.as_slice());
        b
    }

    /// Sets a raw request body.
    pub fn body(self, body: Vec<u8>) -> (r: Self)
        ensures
            r.body matches HttpBody::Bytes(x) && x@ == body@,
            r == (RequestBuilder { body: r.body, ..self }),
    {
        let mut b = self;
        b.body = HttpBody::Bytes(body);
        b
    }

    /// Sets `Content-Type` when not already present; a value that is not valid in a header
    /// is [`Error::InvalidHeaderValue`].
    pub fn content_type(self, value: &str) -> (r: Result<Self, Error>)
        requires
            has_room(header_values(self.headers)),
        ensures
            valid_header_bytes(encode_utf8(value@)) ==> (r matches Ok(b) && header_values(b.headers)
                == (if header_values(self.headers).contains_key(content_type_bytes()) {
                    header_values(self.headers)
                } else {
                    with_header(header_values(self.headers), content_type_bytes(), encode_utf8(value@))
                }) && b == (RequestBuilder { headers: b.headers, ..self })),
            !valid_header_bytes(encode_utf8(value@)) ==> (r matches Err(Error::InvalidHeaderValue(m))
                && m@ == "failed to parse header value"@),
    {
        let mut b = self;
        match set_content_type(&mut b.headers, value) {
            Ok(()) => Ok(b),
            Err(e) => Err(e),
        }
    }

    /// Sets a streaming request body (not replayable with automatic retry), and
    /// `Content-Type: application/octet-stream` unless a content type is set.
    pub fn body_stream(self, stream: S) -> (r: Self)
        requires
            has_room(header_values(self.headers)),
        ensures
            r.body == HttpBody::<S>::Stream(stream),
            header_values(r.headers) == defaulted(header_values(self.headers), octet_stream_content_type()),
            r == (RequestBuilder { body: r.body, headers: r.headers, ..self }),
    {
        let mut b = self;
        b.body = HttpBody::Stream(stream);
        let ct: Vec<u8> = vec![
            97u8, 112, 112, 108, 105, 99, 97, 116, 105, 111, 110, 47, 111, 99, 116, 101, 116, 45,
            115, 116, 114, 101, 97, 109,
        ];
        assert(ct@ =~= octet_stream_content_type());
        default_content_type(&mut b.headers, ct.as_slice());
        b
    }

    /// URL-encoded form body (`application/x-www-form-urlencoded`, see [`form_body`]), and
    /// that content type unless one is set.
    pub fn form(self, fields: Vec<(String, String)>) -> (r: Self)
        requires
            has_room(header_values(self.headers)),
        ensures
            r.body matches HttpBody::Bytes(x) && x@ == encode_utf8(
                form_serialize(fields@.map_values(|p: (String, String)| (p.0@, p.1@))),
            ),
            header_values(r.headers) == defaulted(header_values(self.headers), form_content_type()),
            r == (RequestBuilder { body: r.body, headers: r.headers, ..self }),
    {
        let text = form_body(&fields);
        let bytes = vstd::slice::slice_to_vec(text.as_str().as_bytes());
        let mut b = self;
        b.body = HttpBody::Bytes(bytes);
        let ct: Vec<u8> = vec![
            97u8, 112, 112, 108, 105, 99, 97, 116, 105, 111, 110, 47, 120, 45, 119, 119, 119, 45,
            102, 111, 114, 109, 45, 117, 114, 108, 101, 110, 99, 111, 100, 101, 100,
        ];
        assert(ct@ =~= form_content_type());
        default_content_type(&mut b.headers, ct.as_slice());
        b
    }

    /// Overrides the client default timeout for this request.
    pub fn timeout(self, timeout: Duration) -> (r: Self)
        ensures
            r == (RequestBuilder { timeout: Some(timeout), ..self }),
    {
        let mut b = self;
        b.timeout = Some(timeout);
        b
    }

    /// Overrides the client default retry policy for this request.
    pub fn retry(self, policy: RetryPolicy<P>) -> (r: Self)
        ensures
            r == (RequestBuilder { retry: Some(policy), ..self }),
    {
        let mut b = self;
        b.retry = Some(policy);
        b
    }

    /// Overrides authentication for this request.
    pub fn auth(self, auth: Auth<F, A>) -> (r: Self)
        ensures
            r == (RequestBuilder { auth: Some(auth), ..self }),
    {
        let mut b = self;
        b.auth = Some(auth);
        b
    }

    /// Sets bearer authentication with a fixed token for this request.
    pub fn bearer_token(self, token: String) -> (r: Self)
        ensures
            r.auth matches Some(Auth::Bearer { token: crate::auth::TokenSource::Static(t) })
                && t@ == token@,
            r == (RequestBuilder { auth: r.auth, ..self }),
    {
        let mut b = self;
        b.auth = Some(Auth::bearer(token));
        b
    }

    /// Cancels the in-flight request and retry sleeps when this token is triggered.
    pub fn cancellation_token(self, token: K) -> (r: Self)
        ensures
            r == (RequestBuilder { cancellation: Some(token), ..self }),
    {
        let mut b = self;
        b.cancellation = Some(token);
        b
    }

    /// When `true`, sending returns an error on a non-2xx status.
    pub fn throw_on_error(self, throw: bool) -> (r: Self)
        ensures
            r == (RequestBuilder { throw_on_error: throw, ..self }),
    {
        let mut b = self;
        b.throw_on_error = throw;
        b
    }

    /// Overrides the client's JSON parser for this request only.
    pub fn json_parser_fn(self, parser: J) -> (r: Self)
        ensures
            r == (RequestBuilder { json_parser: Some(parser), ..self }),
    {
        let mut b = self;
        b.json_parser = Some(parser);
        b
    }

    /// Maximum response body size in bytes for this request.
    pub fn max_response_bytes(self, limit: u64) -> (r: Self)
        ensures
            r == (RequestBuilder { max_response_bytes: Some(limit), ..self }),
    {
        let mut b = self;
        b.max_response_bytes = Some(limit);
        b
    }

    /// Overrides how many bytes a custom retry predicate may read of a streaming body.
    pub fn retry_body_peek_bytes(self, limit: u64) -> (r: Self)
        ensures
            r == (RequestBuilder { retry_body_peek_bytes: Some(limit), ..self }),
    {
        let mut b = self;
        b.retry_body_peek_bytes = Some(limit);
        b
    }

    /// When `false`, typed response validation only deserializes.
    pub fn validate_response(self, validate: bool) -> (r: Self)
        ensures
            r == (RequestBuilder { validate_response: validate, ..self }),
    {
        let mut b = self;
        b.validate_response = validate;
        b
    }

    /// The retry policy in effect: this request's, else the client's.
    pub fn effective_retry<'a>(&'a self, client_retry: Option<&'a RetryPolicy<P>>) -> (r: Option<
        &'a RetryPolicy<P>,
    >)
        ensures
            match self.retry {
                Some(p) => r matches Some(x) && *x == p,
                None => r == client_retry,
            },
    {
        match &self.retry {
            Some(p) => Some(p),
            None => client_retry,
        }
    }

    /// The authentication in effect: this request's, else the client's.
    pub fn effective_auth<'a>(&'a self, client_auth: Option<&'a Auth<F, A>>) -> (r: Option<
        &'a Auth<F, A>,
    >)
        ensures
            match self.auth {
                Some(x) => r matches Some(y) && *y == x,
                None => r == client_auth,
            },
    {
        match &self.auth {
            Some(x) => Some(x),
            None => client_auth,
        }
    }

    /// The response body limit in effect: this request's, else the client's.
    pub fn effective_max_response_bytes(&self, client_limit: Option<u64>) -> (r: Option<u64>)
        ensures
            r == if self.max_response_bytes is Some {
                self.max_response_bytes
            } else {
                client_limit
            },
    {
        match self.max_response_bytes {
            Some(l) => Some(l),
            None => client_limit,
        }
    }

    /// The retry peek budget in effect: this request's, else the client's.
    pub fn effective_retry_body_peek_bytes(&self, client_peek: u64) -> (r: u64)
        ensures
            r == match self.retry_body_peek_bytes {
                Some(l) => l,
                None => client_peek,
            },
    {
        match self.retry_body_peek_bytes {
            Some(l) => l,
            None => client_peek,
        }
    }
}

} // verus!
