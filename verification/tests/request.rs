use better_fetch::auth::{Auth, NoCredentialFn, TokenSource};
use better_fetch::client::{ClientBuilder, RETRY_BODY_PEEK_DEFAULT};
use better_fetch::error::Error;
use better_fetch::json::Json;
use better_fetch::pipeline::HttpBody;
use better_fetch::request::RequestBuilder;
use better_fetch::retry::{NoPredicate, RetryPolicy};
use better_fetch::url_build::{ParamMap, QueryValue};
use http::{HeaderMap, Method};
use indexmap::IndexMap;
use std::time::Duration;

type Builder = RequestBuilder<(), (), NoPredicate, NoCredentialFn, NoCredentialFn, (), ()>;
type Client = ClientBuilder<NoPredicate, NoCredentialFn, NoCredentialFn, ()>;

fn builder() -> Builder {
    RequestBuilder::new((), Method::GET, "/items/:id".to_string(), HeaderMap::new(), None, None, None)
}

fn content_type(b: &Builder) -> Option<&str> {
    b.headers.get(http::header::CONTENT_TYPE).map(|v| v.to_str().unwrap())
}

#[test]
fn new_builder_starts_from_client_defaults() {
    let mut defaults = HeaderMap::new();
    defaults.insert("x-client", "1".parse().unwrap());
    let b: Builder = RequestBuilder::new(
        (),
        Method::POST,
        "/p".to_string(),
        defaults,
        Some(Duration::from_secs(3)),
        Some(RetryPolicy::count(2)),
        Some(Auth::bearer("t".to_string())),
    );
    assert_eq!(b.method, Method::POST);
    assert_eq!(b.headers.get("x-client").unwrap(), "1");
    assert_eq!(b.timeout, Some(Duration::from_secs(3)));
    assert!(b.retry.is_some());
    assert!(matches!(b.auth, Some(Auth::Bearer { token: TokenSource::Static(ref t) }) if t == "t"));
    assert!(!b.throw_on_error);
    assert!(b.validate_response);
    assert!(matches!(b.body, HttpBody::Empty));
}

#[test]
fn params_later_pairs_win() {
    let b = builder()
        .param("id".into(), "1".into())
        .params_iter(vec![("id".into(), "2".into()), ("x".into(), "y".into())]);
    assert_eq!(b.params.get("id").unwrap(), "2");
    assert_eq!(b.params.get("x").unwrap(), "y");
    let mut more = ParamMap::new();
    more.insert("x".into(), "z".into());
    let b = b.params(more);
    assert_eq!(b.params.get("x").unwrap(), "z");
    assert_eq!(b.params.len(), 2);
}

#[test]
fn query_keys_keep_their_place() {
    let mut extra = IndexMap::new();
    extra.insert("a".to_string(), QueryValue::Scalar("3".into()));
    extra.insert("c".to_string(), QueryValue::Array(vec!["x".into(), "y".into()]));
    let b = builder()
        .query("a".into(), "1".into())
        .query("b".into(), "2".into())
        .queries(extra)
        .query_json("d".into(), &Json::Bool(true));
    let keys: Vec<&String> = b.query.keys().collect();
    assert_eq!(keys, vec!["a", "b", "c", "d"]);
    assert!(matches!(b.query.get("a"), Some(QueryValue::Scalar(v)) if v == "3"));
    assert!(matches!(b.query.get("d"), Some(QueryValue::Scalar(v)) if v == "true"));
}

#[test]
fn header_parsing_errors() {
    match builder().header("bad name", "v") {
        Err(Error::InvalidHeaderName(m)) => assert_eq!(m, "invalid HTTP header name"),
        _ => panic!("expected an invalid name"),
    }
    match builder().header("x-ok", "line\nbreak") {
        Err(Error::InvalidHeaderValue(m)) => assert_eq!(m, "failed to parse header value"),
        _ => panic!("expected an invalid value"),
    }
    let b = builder().header("X-Trace", "abc").unwrap();
    assert_eq!(b.headers.get("x-trace").unwrap(), "abc");
}

#[test]
fn json_body_defaults_content_type() {
    let b = builder().json(b"{\"a\":1}".to_vec());
    assert!(matches!(b.body, HttpBody::Bytes(ref x) if x == b"{\"a\":1}"));
    assert_eq!(content_type(&b), Some("application/json"));
    let b = builder().content_type("text/plain").unwrap().json(b"1".to_vec());
    assert_eq!(content_type(&b), Some("text/plain"));
}

#[test]
fn form_and_stream_bodies() {
    let b = builder().form(vec![("a b".into(), "c&d".into())]);
    assert!(matches!(b.body, HttpBody::Bytes(ref x) if x == b"a+b=c%26d"));
    assert_eq!(content_type(&b), Some("application/x-www-form-urlencoded"));
    let b = builder().body_stream(());
    assert!(matches!(b.body, HttpBody::Stream(())));
    assert_eq!(content_type(&b), Some("application/octet-stream"));
    let b = builder().body(b"raw".to_vec());
    assert!(matches!(b.body, HttpBody::Bytes(ref x) if x == b"raw"));
    assert_eq!(content_type(&b), None);
}

#[test]
fn content_type_keeps_one_already_present() {
    let b = builder().header("content-type", "text/plain").unwrap();
    let b = b.content_type("application/xml").unwrap();
    assert_eq!(content_type(&b), Some("text/plain"));
    let b = builder().content_type("application/xml").unwrap();
    assert_eq!(content_type(&b), Some("application/xml"));
}

#[test]
fn content_type_rejects_invalid_value() {
    assert!(matches!(builder().content_type("a\u{7f}"), Err(Error::InvalidHeaderValue(_))));
}

#[test]
fn request_overrides() {
    let b = builder()
        .base_url("https://status.example.com")
        .unwrap()
        .timeout(Duration::from_millis(5))
        .retry(RetryPolicy::count(1))
        .bearer_token("tok".into())
        .cancellation_token(())
        .throw_on_error(true)
        .max_response_bytes(10)
        .retry_body_peek_bytes(4)
        .json_parser_fn(())
        .validate_response(false);
    assert_eq!(b.base_url.as_ref().unwrap().as_str(), "https://status.example.com/");
    assert!(b.throw_on_error);
    assert!(!b.validate_response);
    assert_eq!(b.effective_max_response_bytes(Some(99)), Some(10));
    assert_eq!(b.effective_retry_body_peek_bytes(64), 4);
    assert_eq!(builder().effective_max_response_bytes(Some(99)), Some(99));
    assert_eq!(builder().effective_retry_body_peek_bytes(64), 64);
    assert!(matches!(builder().base_url("not a url"), Err(Error::InvalidBaseUrl(_))));
}

#[test]
fn client_build_requires_base_url() {
    let c: Client = ClientBuilder::new();
    assert!(matches!(c.build(), Err(Error::MissingBaseUrl)));
    let c: Client = ClientBuilder::new()
        .base_url("https://api.example.com")
        .unwrap()
        .default_header("x-a", "1")
        .unwrap()
        .max_in_flight(3)
        .max_response_bytes(100);
    let cfg = c.build().unwrap();
    assert_eq!(cfg.base_url.as_str(), "https://api.example.com/");
    assert_eq!(cfg.retry_body_peek_bytes, RETRY_BODY_PEEK_DEFAULT);
    assert_eq!(cfg.retry_body_peek_bytes, 64 * 1024);
    assert_eq!(cfg.max_in_flight, Some(3));
    assert_eq!(cfg.default_headers.get("x-a").unwrap(), "1");
    let c: Client = ClientBuilder::new().base_url("https://a.example").unwrap().retry_body_peek_bytes(7);
    assert_eq!(c.build().unwrap().retry_body_peek_bytes, 7);
}

#[test]
fn try_header_sets_when_there_is_room() {
    let b = builder().try_header("x-a", "1").unwrap().unwrap();
    assert_eq!(b.headers.get("x-a").unwrap(), "1");
    assert!(matches!(builder().try_header("bad name", "1"), Some(Err(Error::InvalidHeaderName(_)))));
    let c: Client = ClientBuilder::new();
    let c = c.try_default_header("x-b", "2").unwrap().unwrap();
    assert_eq!(c.default_headers.get("x-b").unwrap(), "2");
    assert!(better_fetch::headers::can_set(&HeaderMap::new()));
    assert!(better_fetch::headers::can_set_named(&HeaderMap::new(), "not valid"));
}

#[test]
fn params_ordered_is_params_iter() {
    let b = builder().params_ordered(vec![("a".into(), "1".into()), ("a".into(), "2".into())]);
    assert_eq!(b.params.get("a").unwrap(), "2");
    assert_eq!(b.params.len(), 1);
}
