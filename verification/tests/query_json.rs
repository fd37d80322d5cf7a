use better_fetch::json::Json;
use better_fetch::json_text::to_json_text;
use better_fetch::query_json::serialize_to_query_map;
use better_fetch::url_build::QueryValue;

fn s(x: &str) -> Json {
    Json::Str(x.to_string())
}

fn obj(fields: Vec<(&str, Json)>) -> Json {
    Json::Object(fields.into_iter().map(|(k, v)| (k.to_string(), v)).collect())
}

#[test]
fn serialize_to_query_map_skips_null_and_serializes_fields() {
    let value = obj(vec![
        ("q", s("rust")),
        ("page", Json::Number("2".into())),
        ("active", Json::Bool(true)),
    ]);
    let map = serialize_to_query_map(&value);
    assert_eq!(map.len(), 3);
    assert!(matches!(map.get("q"), Some(QueryValue::Scalar(s)) if s == "rust"));
    assert!(matches!(map.get("page"), Some(QueryValue::Scalar(s)) if s == "2"));
    assert!(matches!(map.get("active"), Some(QueryValue::Scalar(s)) if s == "true"));
    assert!(!map.contains_key("tag"));
}

#[test]
fn serialize_to_query_map_array_field() {
    let value = obj(vec![("tags", Json::Array(vec![s("a"), s("b")]))]);
    let map = serialize_to_query_map(&value);
    assert!(matches!(map.get("tags"), Some(QueryValue::Array(v)) if v == &["a", "b"]));
}

#[test]
fn null_fields_are_skipped_and_order_kept() {
    let value = obj(vec![("z", s("1")), ("tag", Json::Null), ("a", s("2"))]);
    let map = serialize_to_query_map(&value);
    let keys: Vec<&String> = map.keys().collect();
    assert_eq!(keys, vec!["z", "a"]);
}

#[test]
fn non_string_items_and_nested_values_use_json_text() {
    let value = obj(vec![
        ("mixed", Json::Array(vec![Json::Number("1".into()), Json::Bool(false), Json::Null, s("x")])),
        ("nested", obj(vec![("k", s("v\"w"))])),
    ]);
    let map = serialize_to_query_map(&value);
    match map.get("mixed") {
        Some(QueryValue::Array(v)) => assert_eq!(v, &vec!["1", "false", "null", "x"]),
        other => panic!("unexpected {:?}", other),
    }
    assert!(matches!(map.get("nested"), Some(QueryValue::Scalar(t)) if t == "{\"k\":\"v\\\"w\"}"));
}

#[test]
fn non_object_gives_no_parameters() {
    assert!(serialize_to_query_map(&s("x")).is_empty());
    assert!(serialize_to_query_map(&Json::Array(vec![s("x")])).is_empty());
}

#[test]
fn from_serializable_scalars() {
    assert!(matches!(QueryValue::from_serializable(&s("a b")), QueryValue::Scalar(t) if t == "a b"));
    assert!(matches!(QueryValue::from_serializable(&Json::Number("-3.5".into())), QueryValue::Scalar(t) if t == "-3.5"));
    assert!(matches!(QueryValue::from_serializable(&Json::Null), QueryValue::Scalar(t) if t == "null"));
}

#[test]
fn json_text_is_compact_and_escaped() {
    let v = obj(vec![
        ("a", Json::Array(vec![Json::Number("1".into()), Json::Null])),
        ("b", s("line\n\ttab\u{1}\\")),
        ("c", obj(vec![])),
    ]);
    assert_eq!(to_json_text(&v), "{\"a\":[1,null],\"b\":\"line\\n\\ttab\\u0001\\\\\",\"c\":{}}");
    assert_eq!(to_json_text(&Json::Array(vec![])), "[]");
}
