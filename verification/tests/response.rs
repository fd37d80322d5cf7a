use better_fetch::error::Error;
use better_fetch::response::{deserialize_validated, into_api_result, parsed_body, Response};

fn response(status: u16, body: &[u8]) -> Response {
    Response::new(status, http::HeaderMap::new(), body.to_vec(), None)
}

fn json_value(body: &Vec<u8>) -> Result<serde_json::Value, String> {
    serde_json::from_slice(body).map_err(|e| e.to_string())
}

#[test]
fn into_text_returns_body_on_success() {
    let r = response(200, b"hello");
    assert_eq!(r.into_text().unwrap(), "hello");
}

#[test]
fn into_json_deserializes_without_async() {
    let r = response(200, br#"{"id":7}"#);
    let v = r.into_json_with(json_value).unwrap();
    assert_eq!(v["id"], 7);
}

#[test]
fn into_json_with_strips_bom_without_client_parser() {
    let r = response(200, b"\xef\xbb\xbf{\"id\":3}");
    let v = r
        .into_json_with(|body: &Vec<u8>| {
            let slice = body.strip_prefix(b"\xef\xbb\xbf").unwrap_or(body);
            serde_json::from_slice::<serde_json::Value>(slice).map_err(|e| e.to_string())
        })
        .unwrap();
    assert_eq!(v["id"], 3);
}

#[test]
fn custom_parser_error_maps_to_deserialize() {
    let r = response(200, b"not-json");
    let err = r
        .into_json_with(|_: &Vec<u8>| -> Result<serde_json::Value, String> { Err("bad json".into()) })
        .unwrap_err();
    assert!(matches!(err, Error::Deserialize { ref message, .. } if message == "bad json"));
}

#[test]
fn error_for_status_keeps_reason_and_body() {
    let r = response(404, b"missing");
    match r.error_for_status() {
        Err(Error::Http { status, status_text, message, body }) => {
            assert_eq!(status, 404);
            assert_eq!(status_text, "Not Found");
            assert_eq!(message, "Not Found");
            assert_eq!(body, Some(b"missing".to_vec()));
        }
        other => panic!("unexpected {:?}", other),
    }
    assert!(response(204, b"").error_for_status().is_ok());
    assert!(response(200, b"").is_success());
    assert!(!response(302, b"").is_success());
}

#[test]
fn unknown_status_falls_back_to_request_failed() {
    match response(599, b"").into_text() {
        Err(Error::Http { status_text, message, .. }) => {
            assert_eq!(status_text, "request failed");
            assert_eq!(message, "request failed");
        }
        other => panic!("unexpected {:?}", other),
    }
}

#[test]
fn into_text_replaces_invalid_utf8() {
    let r = response(200, b"a\xffb");
    assert_eq!(r.into_text().unwrap(), "a\u{FFFD}b");
}

#[test]
fn into_text_fails_on_error_status() {
    let r = response(500, b"boom");
    let err = r.into_text().unwrap_err();
    assert_eq!(err.status(), Some(500));
    assert_eq!(err.body(), Some(&b"boom".to_vec()));
}

#[test]
fn into_bytes_checked_and_parts() {
    assert_eq!(response(200, b"xyz").into_bytes_checked().unwrap(), b"xyz".to_vec());
    assert!(response(400, b"xyz").into_bytes_checked().is_err());
    let (status, _headers, body) = response(201, b"q").into_parts();
    assert_eq!(status, 201);
    assert_eq!(body, b"q".to_vec());
}

#[test]
fn parsed_body_maps_parser_outcome() {
    let ok: Result<u32, Error> = parsed_body(200, b"1".to_vec(), Ok(1));
    assert_eq!(ok.unwrap(), 1);
    let err: Result<u32, Error> = parsed_body(201, b"x".to_vec(), Err("bad".to_string()));
    match err {
        Err(Error::Deserialize { status, message, body }) => {
            assert_eq!(status, 201);
            assert_eq!(message, "bad");
            assert_eq!(body, Some(b"x".to_vec()));
        }
        other => panic!("unexpected {:?}", other.map(|_| ())),
    }
}

fn value_of(body: &Vec<u8>) -> Option<serde_json::Value> {
    serde_json::from_slice(body).ok()
}

#[test]
fn api_json_parses_http_body() {
    let err = Error::http_with_status_text(
        400,
        "Bad Request".to_string(),
        "bad request".to_string(),
        Some(br#"{"message":"invalid"}"#.to_vec()),
    );
    let api = err.api_json(value_of).unwrap();
    assert_eq!(api["message"], "invalid");
}

#[test]
fn api_json_returns_none_without_body() {
    let err = Error::http(500, "err".to_string(), None);
    assert!(err.api_json(value_of).is_none());
    assert!(Error::Timeout.api_json(value_of).is_none());
}

#[test]
fn api_result_by_status() {
    let ok: Result<Result<serde_json::Value, serde_json::Value>, Error> =
        into_api_result(response(200, br#"{"id":1}"#), json_value, value_of);
    assert_eq!(ok.unwrap().unwrap()["id"], 1);
    let api_err: Result<Result<serde_json::Value, serde_json::Value>, Error> =
        into_api_result(response(422, br#"{"message":"no"}"#), json_value, value_of);
    assert_eq!(api_err.unwrap().unwrap_err()["message"], "no");
    let bad: Result<Result<serde_json::Value, serde_json::Value>, Error> =
        into_api_result(response(500, b"<html>"), json_value, value_of);
    match bad {
        Err(Error::Http { status, status_text, message, body }) => {
            assert_eq!(status, 500);
            assert_eq!(status_text, "Internal Server Error");
            assert_eq!(message, "failed to deserialize error response body");
            assert_eq!(body, Some(b"<html>".to_vec()));
        }
        other => panic!("unexpected {:?}", other.map(|_| ())),
    }
    let not_json: Result<Result<serde_json::Value, serde_json::Value>, Error> =
        into_api_result(response(200, b"x"), json_value, value_of);
    assert!(matches!(not_json, Err(Error::Deserialize { status: 200, .. })));
}

fn title_not_empty(v: &serde_json::Value) -> Result<(), String> {
    match v["title"].as_str() {
        Some(t) if !t.is_empty() => Ok(()),
        _ => Err("title: length is lower than 1".to_string()),
    }
}

#[test]
fn accepts_valid_payload() {
    let todo = deserialize_validated(br#"{"title":"hello"}"#.to_vec(), 200, json_value, title_not_empty)
        .expect("valid todo");
    assert_eq!(todo["title"], "hello");
}

#[test]
fn rejects_empty_title() {
    let err = deserialize_validated(br#"{"title":""}"#.to_vec(), 200, json_value, title_not_empty).unwrap_err();
    match err {
        Error::Validation { status, message, body } => {
            assert_eq!(status, 200);
            assert_eq!(message, "title: length is lower than 1");
            assert_eq!(body, Some(br#"{"title":""}"#.to_vec()));
        }
        other => panic!("unexpected {:?}", other),
    }
}

#[test]
fn maps_json_errors_to_deserialize() {
    let err = deserialize_validated(b"not-json".to_vec(), 200, json_value, title_not_empty).unwrap_err();
    assert!(matches!(err, Error::Deserialize { .. }));
}

fn strip_bom(body: &Vec<u8>) -> Result<serde_json::Value, String> {
    let slice = body.strip_prefix(b"\xef\xbb\xbf").unwrap_or(body);
    serde_json::from_slice(slice).map_err(|e| e.to_string())
}

#[test]
fn fast_path_without_parser() {
    let parsed = response(200, br#"{"id":1}"#).into_json_with(json_value).expect("serde_json fast path");
    assert_eq!(parsed["id"], 1);
}

#[test]
fn custom_parser_strips_bom() {
    let parsed = response(200, b"\xef\xbb\xbf{\"id\":2}").into_json_with(strip_bom).expect("custom parser");
    assert_eq!(parsed["id"], 2);
}
