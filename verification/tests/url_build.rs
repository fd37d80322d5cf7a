use better_fetch::error::Error;
use better_fetch::url_build::{
    build_url, form_body, parse_method_modifier, parse_query_string, percent_encode_param,
    substitute_params, ParamMap, QueryValue,
};
use http::Method;
use indexmap::IndexMap;
use url::Url;

fn base() -> Url {
    Url::parse("https://api.example.com").unwrap()
}

#[test]
fn substitutes_colon_params() {
    let mut params = ParamMap::new();
    params.insert("id".into(), "42".into());
    let built = build_url(&base(), "/todos/:id", &params, &IndexMap::new()).unwrap();
    assert_eq!(built.url.as_str(), "https://api.example.com/todos/42");
}

#[test]
fn multiple_params() {
    let mut params = ParamMap::new();
    params.insert("id".into(), "1".into());
    params.insert("title".into(), "hello".into());
    let built = build_url(&base(), "/post/:id/:title", &params, &IndexMap::new()).unwrap();
    assert_eq!(built.url.as_str(), "https://api.example.com/post/1/hello");
}

#[test]
fn encodes_special_characters_in_params() {
    let mut params = ParamMap::new();
    params.insert("id".into(), "a/b".into());
    let built = build_url(&base(), "/items/:id", &params, &IndexMap::new()).unwrap();
    assert!(built.url.path().contains("a%2Fb"));
}

#[test]
fn missing_param_errors() {
    let err = build_url(&base(), "/todos/:id", &ParamMap::new(), &IndexMap::new())
        .err()
        .unwrap();
    assert!(matches!(err, Error::MissingPathParam(_)));
}

#[test]
fn embedded_query_in_path_is_merged() {
    let built = build_url(&base(), "/search?tag=rust", &ParamMap::new(), &IndexMap::new())
        .unwrap();
    assert_eq!(built.url.query(), Some("tag=rust"));
}

#[test]
fn builder_query_overrides_embedded_query() {
    let mut query = IndexMap::new();
    query.insert("tag".to_string(), QueryValue::Scalar("override".into()));
    let built = build_url(&base(), "/search?tag=rust", &ParamMap::new(), &query).unwrap();
    assert_eq!(built.url.query(), Some("tag=override"));
}

#[test]
fn query_scalar() {
    let mut query = IndexMap::new();
    query.insert("q".to_string(), QueryValue::Scalar("rust".into()));
    let built = build_url(&base(), "/search", &ParamMap::new(), &query).unwrap();
    assert_eq!(built.url.query(), Some("q=rust"));
}

#[test]
fn query_array() {
    let mut query = IndexMap::new();
    query.insert(
        "tag".to_string(),
        QueryValue::Array(vec!["a".into(), "b".into()]),
    );
    let built = build_url(&base(), "/search", &ParamMap::new(), &query).unwrap();
    let q = built.url.query().unwrap();
    assert!(q.contains("tag=a"));
    assert!(q.contains("tag=b"));
}

#[test]
fn query_preserves_insertion_order() {
    let mut query = IndexMap::new();
    query.insert("z".to_string(), QueryValue::Scalar("1".into()));
    query.insert("a".to_string(), QueryValue::Scalar("2".into()));
    query.insert("m".to_string(), QueryValue::Scalar("3".into()));
    let built = build_url(&base(), "/search", &ParamMap::new(), &query).unwrap();
    assert_eq!(built.url.query(), Some("z=1&a=2&m=3"));
}

#[test]
fn method_modifier_put() {
    let (path, method) = parse_method_modifier("@put/user");
    assert_eq!(path, "user");
    assert_eq!(method, Some(Method::PUT));
}

#[test]
fn method_modifier_in_build_url() {
    let built = build_url(&base(), "@patch/items", &ParamMap::new(), &IndexMap::new()).unwrap();
    assert_eq!(built.url.path(), "/items");
    assert_eq!(built.method_override, Some(Method::PATCH));
}

#[test]
fn absolute_url_ignores_base() {
    let mut params = ParamMap::new();
    params.insert("id".into(), "5".into());
    let built = build_url(
        &base(),
        "https://other.example.com/users/:id",
        &params,
        &IndexMap::new(),
    )
    .unwrap();
    assert_eq!(built.url.as_str(), "https://other.example.com/users/5");
}

#[test]
fn empty_path_uses_base() {
    let built = build_url(&base(), "", &ParamMap::new(), &IndexMap::new()).unwrap();
    assert_eq!(built.url.as_str(), "https://api.example.com/");
}

#[test]
fn base_with_trailing_slash_joins_once() {
    let base = Url::parse("https://api.example.com/v1/").unwrap();
    let built = build_url(&base, "//users", &ParamMap::new(), &IndexMap::new()).unwrap();
    assert_eq!(built.url.as_str(), "https://api.example.com/v1/users");
}

#[test]
fn method_modifier_is_case_insensitive_and_strips_slashes() {
    let (path, method) = parse_method_modifier("@DeLeTe//things/1");
    assert_eq!(path, "things/1");
    assert_eq!(method, Some(Method::DELETE));
}

#[test]
fn unknown_method_modifier_is_kept() {
    let (path, method) = parse_method_modifier("@fetch/things");
    assert_eq!(path, "@fetch/things");
    assert_eq!(method, None);
    let (path, method) = parse_method_modifier("@get");
    assert_eq!(path, "@get");
    assert_eq!(method, None);
}

#[test]
fn percent_encoding_keeps_unreserved_bytes() {
    assert_eq!(percent_encode_param("a-b_c.d~e"), "a-b_c.d~e");
    assert_eq!(percent_encode_param("a b/c?"), "a%20b%2Fc%3F");
    assert_eq!(percent_encode_param("é"), "%C3%A9");
}

#[test]
fn form_encoding_of_query_values() {
    let mut query = IndexMap::new();
    query.insert("q".to_string(), QueryValue::Scalar("a b&c=d*é".into()));
    let built = build_url(&base(), "/s", &ParamMap::new(), &query).unwrap();
    assert_eq!(built.url.query(), Some("q=a+b%26c%3Dd*%C3%A9"));
}

#[test]
fn repeated_embedded_keys_become_arrays() {
    let map = parse_query_string("a=1&b=2&a=3&a=4");
    assert_eq!(map.len(), 2);
    match map.get("a") {
        Some(QueryValue::Array(v)) => assert_eq!(v, &vec!["1".to_string(), "3".into(), "4".into()]),
        _ => panic!("expected an array"),
    }
    match map.get("b") {
        Some(QueryValue::Scalar(v)) => assert_eq!(v, "2"),
        _ => panic!("expected a scalar"),
    }
}

#[test]
fn first_missing_param_is_reported() {
    let mut params = ParamMap::new();
    params.insert("id".into(), "1".into());
    let err = substitute_params("/a/:id/::other/:last", &params).err().unwrap();
    match err {
        Error::MissingPathParam(name) => assert_eq!(name, ":other"),
        _ => panic!("expected MissingPathParam"),
    }
}

#[test]
fn each_segment_takes_its_own_value() {
    let mut params = ParamMap::new();
    params.insert("id".into(), "7".into());
    params.insert("idx".into(), "9".into());
    let out = substitute_params("/a/:id/:idx", &params).unwrap();
    assert_eq!(out, "/a/7/9");
}

#[test]
fn params_sharing_a_prefix_build_their_own_segments() {
    let mut params = ParamMap::new();
    params.insert("id".into(), "1".into());
    params.insert("idx".into(), "2".into());
    let built = build_url(&base(), "/t/:id/:idx", &params, &IndexMap::new()).unwrap();
    assert_eq!(built.url.as_str(), "https://api.example.com/t/1/2");
}

#[test]
fn query_suffix_is_left_as_it_is() {
    let mut params = ParamMap::new();
    params.insert("id".into(), "5".into());
    let out = substitute_params("/users/:id?tab=:id", &params).unwrap();
    assert_eq!(out, "/users/5?tab=:id");
}

#[test]
fn colon_inside_a_segment_is_literal() {
    let mut params = ParamMap::new();
    params.insert("id".into(), "5".into());
    let out = substitute_params("/v1:id/:id", &params).unwrap();
    assert_eq!(out, "/v1:id/5");
}

#[test]
fn param_map_insert_then_get() {
    let mut params = ParamMap::new();
    params.insert("k".into(), "1".into());
    params.insert("j".into(), "2".into());
    params.insert("k".into(), "3".into());
    assert_eq!(params.get("k").map(String::as_str), Some("3"));
    assert_eq!(params.get("j").map(String::as_str), Some("2"));
    assert_eq!(params.get("x"), None);
    assert_eq!(params.len(), 2);
}

#[test]
fn invalid_absolute_url_is_invalid_base_url() {
    let err = build_url(&base(), "http://", &ParamMap::new(), &IndexMap::new())
        .err()
        .unwrap();
    assert!(matches!(err, Error::InvalidBaseUrl(_)));
}

#[test]
fn form_body_encodes_fields_in_order() {
    let fields = vec![
        ("name".to_string(), "Ada Lovelace".to_string()),
        ("x&y".to_string(), "1=2".to_string()),
    ];
    assert_eq!(form_body(&fields), "name=Ada+Lovelace&x%26y=1%3D2");
    assert_eq!(form_body(&Vec::new()), "");
}

#[test]
fn fuzz_entry_points_build_against_the_example_base() {
    let built = better_fetch::url_build::fuzz_build_url("/todos?x=1").unwrap();
    assert_eq!(built.url.as_str(), "https://api.example.com/todos?x=1");
    let built = better_fetch::url_build::fuzz_parse_embedded_query("/s?a=1&a=2").unwrap();
    assert_eq!(built.url.query(), Some("a=1&a=2"));
    assert!(matches!(
        better_fetch::url_build::fuzz_build_url("/t/:id"),
        Err(Error::MissingPathParam(n)) if n == "id"
    ));
}
