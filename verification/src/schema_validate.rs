//! Runtime JSON Schema validation (Draft 7) against a [`SchemaRegistry`].
//!
//! A strict registry validates request bodies, responses, query and path parameters against
//! the schemas registered for the route; a registry that is not strict, or a route without
//! the schema, accepts everything. The validation itself is `jsonschema`'s.

use vstd::prelude::*;
use vstd::utf8::encode_utf8;
use indexmap::IndexMap;
use crate::error::{is_success_code, Error};
use crate::json::{json_view, Json, JsonView};
use crate::json_text::{json_text, to_json_text};
use crate::pipeline::HttpBody;
use crate::response::Response;
use crate::schema::{opt_schema, SchemaRegistry};
use crate::url_build::{method_text, query_entries, ParamMap, QueryValue};
use crate::wire::{opt_view, params_object, params_to_json, query_object, query_to_json};

verus! {

/// What `jsonschema` makes of a Draft 7 schema (as JSON text) and an instance (as JSON bytes):
/// `Ok(None)` when the instance is valid, `Ok(Some(message))` with the first error when it is
/// not, `Err((true, message))` when the instance is not JSON, and `Err((false, message))` when
/// the schema does not parse or compile.
pub uninterp spec fn jsonschema_outcome(schema: Seq<char>, instance: Seq<u8>) -> Result<
    Option<Seq<char>>,
    (bool, Seq<char>),
>;

/// Parses the instance (`serde_json::from_slice`) and the schema (`serde_json::from_str`),
/// compiles the schema for Draft 7 (`jsonschema::options().with_draft(Draft7).build`) and
/// validates the instance (`Validator::validate`), each failure as its `Display` text.
///
/// Contract: the named outcome.
#[verifier::external_body]
fn check_against_schema(schema: &str, instance: &[u8]) -> (r: Result<Option<String>, (bool, String)>)
    ensures
        match jsonschema_outcome(schema@, instance@) {
            Ok(None) => r matches Ok(None),
            Ok(Some(m)) => r matches Ok(Some(x)) && x@ == m,
            Err((b, m)) => r matches Err((c, x)) && c == b && x@ == m,
        },
{
    let value: serde_json::Value = serde_json::from_slice(instance).map_err(|e| (true, e.to_string()))?;
    let schema: serde_json::Value = serde_json::from_str(schema).map_err(|e| (false, e.to_string()))?;
    let validator = jsonschema::options().with_draft(jsonschema::Draft::Draft7).build(&schema).map_err(
        |e| (false, e.to_string()),
    )?;
    Ok(validator.validate(&value).err().map(|e| e.to_string()))
}

/// Whether `r` is what validating `value` against `schema` in `phase` gives: success, a
/// schema validation error with `jsonschema`'s message, or a configuration error when the
/// check could not run.
pub open spec fn checked(r: Result<(), Error>, schema: JsonView, value: JsonView, phase: Seq<char>) -> bool {
    match jsonschema_outcome(json_text(schema), encode_utf8(json_text(value))) {
        Ok(None) => r is Ok,
        Ok(Some(m)) => r matches Err(Error::SchemaValidation { phase: p, message: x }) && p@ == phase
            && x@ == m,
        Err((_, m)) => r matches Err(Error::Config(x)) && x@ == m,
    }
}

/// Whether `r` is what validating `value` against an optional schema gives: success without
/// a schema.
pub open spec fn checked_opt(
    r: Result<(), Error>,
    schema: Option<JsonView>,
    value: JsonView,
    phase: Seq<char>,
) -> bool {
    match schema {
        None => r is Ok,
        Some(s) => checked(r, s, value, phase),
    }
}

/// Validates `value` against `schema` (Draft 7); a failure is [`Error::SchemaValidation`] in
/// `phase`, and a schema that does not compile is [`Error::Config`].
pub fn validate_value(schema: &Json, value: &Json, phase: &str) -> (r: Result<(), Error>)
    ensures
        checked(r, json_view(*schema), json_view(*value), phase@),
{
    let schema_text = to_json_text(schema);
    let value_text = to_json_text(value);
    match check_against_schema(schema_text.as_str(), value_text.as_str().as_bytes()) {
        Ok(None) => Ok(()),
        Ok(Some(m)) => Err(Error::SchemaValidation { phase: crate::json::owned(phase), message: m }),
        Err((_, m)) => Err(Error::Config(m)),
    }
}

/// Validates `value` against an optional schema; none accepts everything.
fn validate_opt(schema: Option<&Json>, value: &Json, phase: &str) -> (r: Result<(), Error>)
    ensures
        checked_opt(
            r,
            match schema {
                Some(s) => Some(json_view(*s)),
                None => None,
            },
            json_view(*value),
            phase@,
        ),
{
    match schema {
        None => Ok(()),
        Some(s) => validate_value(s, value, phase),
    }
}

/// Validates a JSON request body against the request schema registered for `path` +
/// `method`. No-op when the registry is not strict or no such schema is registered.
pub fn validate_request(registry: &SchemaRegistry, path: &str, method: &http::Method, body: &Json) -> (r:
    Result<(), Error>)
    ensures
        !registry.spec_strict() ==> r is Ok,
        registry.spec_strict() ==> match registry.spec_find(path@, method_text(*method)) {
            None => r is Ok,
            Some(e) => checked_opt(r, opt_schema(e.request_schema), json_view(*body), "request"@),
        },
{
    if !registry.is_strict() {
        return Ok(());
    }
    validate_opt(registry.request_schema(path, method), body, "request")
}

/// Validates a JSON response body against the response schema registered for `path` +
/// `method`. No-op when the registry is not strict or no such schema is registered.
pub fn validate_response(registry: &SchemaRegistry, path: &str, method: &http::Method, body: &Json) -> (r:
    Result<(), Error>)
    ensures
        !registry.spec_strict() ==> r is Ok,
        registry.spec_strict() ==> match registry.spec_find(path@, method_text(*method)) {
            None => r is Ok,
            Some(e) => checked_opt(r, opt_schema(e.response_schema), json_view(*body), "response"@),
        },
{
    if !registry.is_strict() {
        return Ok(());
    }
    validate_opt(registry.response_schema(path, method), body, "response")
}

/// Validates path parameters (as a JSON object, each value read as JSON with the float
/// reading at its position) when a params schema is registered. No-op when not strict.
pub fn validate_params(
    registry: &SchemaRegistry,
    path: &str,
    method: &http::Method,
    params: &ParamMap,
    floats: &Vec<Option<String>>,
) -> (r: Result<(), Error>)
    requires
        floats@.len() == params.entries().len(),
    ensures
        !registry.spec_strict() ==> r is Ok,
        registry.spec_strict() ==> match registry.spec_find(path@, method_text(*method)) {
            None => r is Ok,
            Some(e) => checked_opt(
                r,
                opt_schema(e.params_schema),
                JsonView::Object(
                    params_object(params.entries(), floats@.map_values(|t: Option<String>| opt_view(t))),
                ),
                "params"@,
            ),
        },
{
    if !registry.is_strict() {
        return Ok(());
    }
    match registry.params_schema(path, method) {
        None => Ok(()),
        Some(s) => validate_value(s, &params_to_json(params, floats), "params"),
    }
}

/// Validates query parameters (as a JSON object, each value read as JSON with the float
/// readings at its positions) when a query schema is registered. No-op when not strict.
pub fn validate_query(
    registry: &SchemaRegistry,
    path: &str,
    method: &http::Method,
    query: &IndexMap<String, QueryValue>,
    floats: &Vec<Vec<Option<String>>>,
) -> (r: Result<(), Error>)
    requires
        floats@.len() == query_entries(*query).len(),
        forall|i: int|
            0 <= i < floats@.len() ==> #[trigger] floats@[i]@.len() == query_entries(*query)[i].1.1.len(),
    ensures
        !registry.spec_strict() ==> r is Ok,
        registry.spec_strict() ==> match registry.spec_find(path@, method_text(*method)) {
            None => r is Ok,
            Some(e) => checked_opt(
                r,
                opt_schema(e.query_schema),
                JsonView::Object(
                    query_object(
                        query_entries(*query),
                        floats@.map_values(
                            |v: Vec<Option<String>>| v@.map_values(|t: Option<String>| opt_view(t)),
                        ),
                    ),
                ),
                "query"@,
            ),
        },
{
    if !registry.is_strict() {
        return Ok(());
    }
    match registry.query_schema(path, method) {
        None => Ok(()),
        Some(s) => validate_value(s, &query_to_json(query, floats), "query"),
    }
}

/// Whether `r` is what validating a response body (as bytes) against `schema` gives: a body
/// that is not JSON is a response schema error (`response body is not JSON: ` and the
/// parser's message); otherwise as [`checked`].
pub open spec fn checked_bytes(r: Result<(), Error>, schema: JsonView, body: Seq<u8>) -> bool {
    match jsonschema_outcome(json_text(schema), body) {
        Ok(None) => r is Ok,
        Ok(Some(m)) => r matches Err(Error::SchemaValidation { phase: p, message: x }) && p@
            == "response"@ && x@ == m,
        Err((true, m)) => r matches Err(Error::SchemaValidation { phase: p, message: x }) && p@
            == "response"@ && x@ == "response body is not JSON: "@ + m,
        Err((false, m)) => r matches Err(Error::Config(x)) && x@ == m,
    }
}

/// Validates a buffered response when the registry is strict, the status is a success, a
/// response schema is registered and the body is not empty; otherwise accepts it.
pub fn validate_response_if_registered(
    registry: &SchemaRegistry,
    path: &str,
    method: &http::Method,
    response: &Response,
) -> (r: Result<(), Error>)
    ensures
        (!registry.spec_strict() || !is_success_code(response.spec_status())
            || response.spec_body().len() == 0) ==> r is Ok,
        (registry.spec_strict() && is_success_code(response.spec_status())
            && response.spec_body().len() > 0) ==> match registry.spec_find(
            path@,
            method_text(*method),
        ) {
            None => r is Ok,
            Some(e) => match opt_schema(e.response_schema) {
                None => r is Ok,
                Some(s) => checked_bytes(r, s, response.spec_body()),
            },
        },
{
    if !registry.is_strict() || !response.is_success() {
        return Ok(());
    }
    let schema = match registry.response_schema(path, method) {
        None => return Ok(()),
        Some(s) => s,
    };
    let bytes = response.bytes();
    if bytes.len() == 0 {
        return Ok(());
    }
    let schema_text = to_json_text(schema);
    match check_against_schema(schema_text.as_str(), bytes.as_slice()) {
        Ok(None) => Ok(()),
        Ok(Some(m)) => Err(
            Error::SchemaValidation { phase: crate::json::owned("response"), message: m },
        ),
        Err((true, m)) => {
            let mut message = crate::json::owned("response body is not JSON: ");
            crate::text::push_str(&mut message, m.as_str());
            Err(Error::SchemaValidation { phase: crate::json::owned("response"), message })
        },
        Err((false, m)) => Err(Error::Config(m)),
    }
}

/// Whether `r` is what validating a request body (as bytes) against `schema` gives: a body
/// that is not JSON is a request schema error (`request body is not JSON: ` and the parser's
/// message); otherwise as [`checked`].
pub open spec fn checked_request_bytes(r: Result<(), Error>, schema: JsonView, body: Seq<u8>) -> bool {
    match jsonschema_outcome(json_text(schema), body) {
        Ok(None) => r is Ok,
        Ok(Some(m)) => r matches Err(Error::SchemaValidation { phase: p, message: x }) && p@
            == "request"@ && x@ == m,
        Err((true, m)) => r matches Err(Error::SchemaValidation { phase: p, message: x }) && p@
            == "request"@ && x@ == "request body is not JSON: "@ + m,
        Err((false, m)) => r matches Err(Error::Config(x)) && x@ == m,
    }
}

/// Validates the body a request will send, when the registry is strict and a request schema
/// is registered for the route: no body, or empty bytes, is validated as JSON `null`; bytes
/// are read as JSON; a streaming body cannot be read ahead of sending and is refused.
pub fn validate_request_body<S>(
    registry: &SchemaRegistry,
    path: &str,
    method: &http::Method,
    body: &HttpBody<S>,
) -> (r: Result<(), Error>)
    ensures
        !registry.spec_strict() ==> r is Ok,
        registry.spec_strict() ==> match registry.spec_find(path@, method_text(*method)) {
            None => r is Ok,
            Some(e) => match opt_schema(e.request_schema) {
                None => r is Ok,
                Some(sv) => match *body {
                    HttpBody::Bytes(b) => if b@.len() == 0 {
                        checked(r, sv, JsonView::Null, "request"@)
                    } else {
                        checked_request_bytes(r, sv, b@)
                    },
                    HttpBody::Empty => checked(r, sv, JsonView::Null, "request"@),
                    HttpBody::Stream(_) => r matches Err(Error::SchemaValidation { phase, message })
                        && phase@ == "request"@ && message@
                        == "request schema registered but body is a stream"@,
                },
            },
        },
{
    if !registry.is_strict() {
        return Ok(());
    }
    let schema = match registry.request_schema(path, method) {
        None => return Ok(()),
        Some(s) => s,
    };
    match body {
        HttpBody::Bytes(b) => {
            if b.len() == 0 {
                validate_value(schema, &Json::Null, "request")
            } else {
                let schema_text = to_json_text(schema);
                match check_against_schema(schema_text.as_str(), b.as_slice()) {
                    Ok(None) => Ok(()),
                    Ok(Some(m)) => Err(
                        Error::SchemaValidation { phase: crate::json::owned("request"), message: m },
                    ),
                    Err((true, m)) => {
                        let mut message = crate::json::owned("request body is not JSON: ");
                        crate::text::push_str(&mut message, m.as_str());
                        Err(Error::SchemaValidation { phase: crate::json::owned("request"), message })
                    },
                    Err((false, m)) => Err(Error::Config(m)),
                }
            }
        },
        HttpBody::Empty => validate_value(schema, &Json::Null, "request"),
        HttpBody::Stream(_) => Err(
            Error::SchemaValidation {
                phase: crate::json::owned("request"),
                message: crate::json::owned("request schema registered but body is a stream"),
            },
        ),
    }
}

/// Whether a streamed response is validated once collected: the registry is strict and a
/// response schema is registered for the route.
pub fn validates_streamed_response(registry: &SchemaRegistry, path: &str, method: &http::Method) -> (b:
    bool)
    ensures
        b == (registry.spec_strict() && match registry.spec_find(path@, method_text(*method)) {
            Some(e) => e.response_schema is Some,
            None => false,
        }),
{
    registry.is_strict() && registry.response_schema(path, method).is_some()
}

} // verus!
