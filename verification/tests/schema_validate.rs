use better_fetch::error::Error;
use better_fetch::json::Json;
use better_fetch::response::Response;
use better_fetch::schema::SchemaRegistry;
use better_fetch::schema_validate::{
    validate_params, validate_query, validate_request, validate_response,
    validate_request_body, validate_response_if_registered, validate_value,
    validates_streamed_response,
};
use better_fetch::pipeline::HttpBody;
use better_fetch::url_build::{ParamMap, QueryValue};
use http::Method;
use indexmap::IndexMap;

fn s(x: &str) -> Json {
    Json::Str(x.to_string())
}

fn obj(fields: Vec<(&str, Json)>) -> Json {
    Json::Object(fields.into_iter().map(|(k, v)| (k.to_string(), v)).collect())
}

fn id_schema() -> Json {
    obj(vec![
        ("type", s("object")),
        ("required", Json::Array(vec![s("id")])),
        ("properties", obj(vec![("id", obj(vec![("type", s("integer"))]))])),
    ])
}

fn registry(strict: bool) -> SchemaRegistry {
    let mut r = SchemaRegistry::new().strict(strict);
    r.register_full(
        "/items/:id".to_string(),
        Method::POST,
        Some(id_schema()),
        Some(id_schema()),
        Some(id_schema()),
        Some(id_schema()),
    );
    r
}

#[test]
fn validate_value_accepts_and_rejects() {
    let good = obj(vec![("id", Json::Number("3".into()))]);
    assert!(validate_value(&id_schema(), &good, "request").is_ok());
    let bad = obj(vec![("id", s("x"))]);
    match validate_value(&id_schema(), &bad, "request") {
        Err(Error::SchemaValidation { phase, message }) => {
            assert_eq!(phase, "request");
            assert!(!message.is_empty());
        }
        other => panic!("unexpected {:?}", other),
    }
}

#[test]
fn non_strict_registry_accepts_everything() {
    let r = registry(false);
    assert!(validate_request(&r, "/items/:id", &Method::POST, &s("nope")).is_ok());
    assert!(validate_response(&r, "/items/:id", &Method::POST, &s("nope")).is_ok());
}

#[test]
fn strict_registry_validates_registered_routes_only() {
    let r = registry(true);
    assert!(matches!(
        validate_request(&r, "/items/:id", &Method::POST, &s("nope")),
        Err(Error::SchemaValidation { ref phase, .. }) if phase == "request"
    ));
    assert!(matches!(
        validate_response(&r, "/items/:id", &Method::POST, &s("nope")),
        Err(Error::SchemaValidation { ref phase, .. }) if phase == "response"
    ));
    assert!(validate_request(&r, "/other", &Method::POST, &s("nope")).is_ok());
    assert!(validate_request(&r, "/items/:id", &Method::GET, &s("nope")).is_ok());
}

#[test]
fn params_and_query_are_coerced_before_validation() {
    let r = registry(true);
    let mut p = ParamMap::new();
    p.insert("id".into(), "7".into());
    assert!(validate_params(&r, "/items/:id", &Method::POST, &p, &vec![Some("7.0".into())]).is_ok());
    let mut p = ParamMap::new();
    p.insert("id".into(), "abc".into());
    assert!(matches!(
        validate_params(&r, "/items/:id", &Method::POST, &p, &vec![None]),
        Err(Error::SchemaValidation { ref phase, .. }) if phase == "params"
    ));
    let mut q = IndexMap::new();
    q.insert("id".to_string(), QueryValue::Scalar("12".into()));
    assert!(validate_query(&r, "/items/:id", &Method::POST, &q, &vec![vec![Some("12.0".into())]]).is_ok());
}

#[test]
fn buffered_response_validation() {
    let r = registry(true);
    let ok = Response::new(200, http::HeaderMap::new(), br#"{"id":1}"#.to_vec(), None);
    assert!(validate_response_if_registered(&r, "/items/:id", &Method::POST, &ok).is_ok());
    let bad = Response::new(200, http::HeaderMap::new(), br#"{"id":"x"}"#.to_vec(), None);
    assert!(matches!(
        validate_response_if_registered(&r, "/items/:id", &Method::POST, &bad),
        Err(Error::SchemaValidation { ref phase, .. }) if phase == "response"
    ));
    let not_json = Response::new(200, http::HeaderMap::new(), b"<html>".to_vec(), None);
    match validate_response_if_registered(&r, "/items/:id", &Method::POST, &not_json) {
        Err(Error::SchemaValidation { phase, message }) => {
            assert_eq!(phase, "response");
            assert!(message.starts_with("response body is not JSON: "));
        }
        other => panic!("unexpected {:?}", other),
    }
    let empty = Response::new(200, http::HeaderMap::new(), Vec::new(), None);
    assert!(validate_response_if_registered(&r, "/items/:id", &Method::POST, &empty).is_ok());
    let failed = Response::new(500, http::HeaderMap::new(), b"<html>".to_vec(), None);
    assert!(validate_response_if_registered(&r, "/items/:id", &Method::POST, &failed).is_ok());
}

#[test]
fn request_body_validation_by_body_kind() {
    let r = registry(true);
    let good: HttpBody<()> = HttpBody::Bytes(br#"{"id":5}"#.to_vec());
    assert!(validate_request_body(&r, "/items/:id", &Method::POST, &good).is_ok());
    let empty: HttpBody<()> = HttpBody::Empty;
    assert!(matches!(
        validate_request_body(&r, "/items/:id", &Method::POST, &empty),
        Err(Error::SchemaValidation { ref phase, .. }) if phase == "request"
    ));
    let not_json: HttpBody<()> = HttpBody::Bytes(b"id=5".to_vec());
    match validate_request_body(&r, "/items/:id", &Method::POST, &not_json) {
        Err(Error::SchemaValidation { message, .. }) => {
            assert!(message.starts_with("request body is not JSON: "))
        }
        other => panic!("unexpected {:?}", other),
    }
    let stream: HttpBody<()> = HttpBody::Stream(());
    match validate_request_body(&r, "/items/:id", &Method::POST, &stream) {
        Err(Error::SchemaValidation { phase, message }) => {
            assert_eq!(phase, "request");
            assert_eq!(message, "request schema registered but body is a stream");
        }
        other => panic!("unexpected {:?}", other),
    }
    assert!(validate_request_body(&registry(false), "/items/:id", &Method::POST, &stream).is_ok());
    assert!(validate_request_body(&r, "/nope", &Method::POST, &stream).is_ok());
}

#[test]
fn streamed_response_validation_wanted_only_when_strict_and_registered() {
    for (r, expected) in [(registry(true), true), (registry(false), false)] {
        assert_eq!(validates_streamed_response(&r, "/items/:id", &Method::POST), expected);
        assert!(!validates_streamed_response(&r, "/other", &Method::POST));
    }
}
