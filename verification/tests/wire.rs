use better_fetch::json::Json;
use better_fetch::url_build::{ParamMap, QueryValue};
use better_fetch::wire::{params_to_json, query_to_json, wire_scalar_to_json};
use indexmap::IndexMap;

fn field<'a>(v: &'a Json, key: &str) -> &'a Json {
    match v {
        Json::Object(e) => &e.iter().find(|(k, _)| k == key).unwrap().1,
        _ => panic!("expected an object"),
    }
}

fn is_number(v: &Json, text: &str) -> bool {
    matches!(v, Json::Number(n) if n == text)
}

#[test]
fn wire_scalar_coerces_numbers_and_bools() {
    assert!(is_number(&wire_scalar_to_json("42", None), "42"));
    assert!(matches!(wire_scalar_to_json("true", None), Json::Bool(true)));
    assert!(matches!(wire_scalar_to_json("hello", None), Json::Str(s) if s == "hello"));
}

#[test]
fn wire_scalar_integer_forms() {
    assert!(is_number(&wire_scalar_to_json("-17", None), "-17"));
    assert!(is_number(&wire_scalar_to_json("+5", None), "5"));
    assert!(is_number(&wire_scalar_to_json("-0", None), "0"));
    assert!(is_number(&wire_scalar_to_json("007", None), "7"));
    assert!(is_number(
        &wire_scalar_to_json("-9223372036854775808", None),
        "-9223372036854775808"
    ));
    assert!(is_number(
        &wire_scalar_to_json("18446744073709551615", None),
        "18446744073709551615"
    ));
    assert!(matches!(wire_scalar_to_json("18446744073709551616", None), Json::Str(_)));
    assert!(is_number(&wire_scalar_to_json("1.5", Some("1.5".into())), "1.5"));
    assert!(matches!(wire_scalar_to_json("False", None), Json::Str(_)));
}

#[test]
fn query_json_scalar_and_array() {
    let mut q = IndexMap::new();
    q.insert("tag".to_string(), QueryValue::Scalar("a".into()));
    q.insert("ids".to_string(), QueryValue::Array(vec!["1".into(), "2".into()]));
    let floats = vec![vec![None], vec![None, None]];
    let v = query_to_json(&q, &floats);
    assert!(matches!(field(&v, "tag"), Json::Str(s) if s == "a"));
    match field(&v, "ids") {
        Json::Array(items) => {
            assert_eq!(items.len(), 2);
            assert!(is_number(&items[0], "1"));
            assert!(is_number(&items[1], "2"));
        }
        _ => panic!("expected an array"),
    }
}

#[test]
fn params_json_coerces_id() {
    let mut p = ParamMap::new();
    p.insert("id".into(), "7".into());
    let v = params_to_json(&p, &vec![None]);
    assert!(is_number(field(&v, "id"), "7"));
}
