//! Request headers: parsing names and values, and setting them in a header map.

use vstd::prelude::*;
use vstd::utf8::encode_utf8;
use crate::auth::valid_header_bytes;
use crate::error::Error;
use crate::retry::header_values;

verus! {

#[verifier::external_type_specification]
#[verifier::external_body]
pub struct ExHeaderName(http::HeaderName);

/// The bytes of a header name as `http` stores it (lower case; `HeaderName::as_str`).
pub uninterp spec fn header_name_bytes(n: http::HeaderName) -> Seq<u8>;

/// The bytes of a header value (`HeaderValue::as_bytes`).
pub uninterp spec fn header_value_bytes(v: http::HeaderValue) -> Seq<u8>;

/// The name that `HeaderName::from_bytes` makes of `src` (normalized to lower case), or
/// `None` when it refuses the bytes.
pub uninterp spec fn parsed_header_name(src: Seq<u8>) -> Option<Seq<u8>>;

/// `content-type`, as `http` stores the name.
pub open spec fn content_type_bytes() -> Seq<u8> {
    seq![99u8, 111, 110, 116, 101, 110, 116, 45, 116, 121, 112, 101]
}

/// The number of names below which `HeaderMap::insert` cannot panic. `insert` first makes
/// room for one more name, whether or not the name is present; growth fails past the
/// largest table, and an adversarial set of names can force the table to double early, so
/// only a map with fewer names than this is safe whatever the names are.
pub open spec fn header_name_capacity() -> nat {
    6554
}

/// Whether a name can be set in `h` without `insert` panicking: fewer names than
/// [`header_name_capacity`].
pub open spec fn has_room(h: Map<Seq<u8>, Seq<Seq<u8>>>) -> bool {
    h.dom().len() < header_name_capacity()
}

/// Parses a header name (`HeaderName::from_bytes` on the UTF-8 bytes of `s`).
///
/// Contract: the named result; a refusal carries the error's `Display` text.
#[verifier::external_body]
fn parse_header_name(s: &str) -> (r: Result<http::HeaderName, String>)
    ensures
        match r {
            Ok(n) => parsed_header_name(encode_utf8(s@)) == Some(header_name_bytes(n)),
            Err(m) => parsed_header_name(encode_utf8(s@)) is None && m@
                == "invalid HTTP header name"@,
        },
{
    http::HeaderName::from_bytes(s.as_bytes()).map_err(|e| e.to_string())
}

/// Parses a header value from bytes (`HeaderValue::from_bytes`).
///
/// Contract: accepted exactly when every byte is valid in a header value (the test in
/// `http`'s source); the value holds the same bytes; a refusal carries the error's
/// `Display` text.
#[verifier::external_body]
pub(crate) fn parse_header_value(bytes: &[u8]) -> (r: Result<http::HeaderValue, String>)
    ensures
        r is Ok <==> valid_header_bytes(bytes@),
        r matches Ok(v) ==> header_value_bytes(v) == bytes@,
        r matches Err(m) ==> m@ == "failed to parse header value"@,
{
    http::HeaderValue::from_bytes(bytes).map_err(|e| e.to_string())
}

/// The `Content-Type` header name (`http::header::CONTENT_TYPE`).
///
/// Contract: its stored bytes are `content-type`.
#[verifier::external_body]
fn content_type_name() -> (r: http::HeaderName)
    ensures
        header_name_bytes(r) == content_type_bytes(),
{
    http::header::CONTENT_TYPE
}

/// Whether the map holds a value for `name` (`HeaderMap::contains_key`).
///
/// Contract: exactly when the name is among the map's names.
#[verifier::external_body]
fn header_map_contains(h: &http::HeaderMap, name: &http::HeaderName) -> (r: bool)
    ensures
        r == header_values(*h).contains_key(header_name_bytes(*name)),
{
    h.contains_key(name)
}

/// The number of distinct names in the map (`HeaderMap::keys_len`).
///
/// Contract: the number of names the map holds.
#[verifier::external_body]
fn header_map_keys_len(h: &http::HeaderMap) -> (r: usize)
    ensures
        r == header_values(*h).dom().len(),
{
    h.keys_len()
}

/// Whether a name can be set in `h` without `insert` panicking.
pub fn can_set(h: &http::HeaderMap) -> (b: bool)
    ensures
        b == has_room(header_values(*h)),
{
    header_map_keys_len(h) < 6554
}

/// Whether a header named by `key` can be set in `h`: the key is no valid name (setting it
/// fails before the map is touched), or the name can be set.
pub fn can_set_named(h: &http::HeaderMap, key: &str) -> (b: bool)
    ensures
        b == match parsed_header_name(encode_utf8(key@)) {
            Some(_) => has_room(header_values(*h)),
            None => true,
        },
{
    match parse_header_name(key) {
        Ok(_) => can_set(h),
        Err(_) => true,
    }
}

/// Sets `name` to the single value `value` (`HeaderMap::insert`), removing earlier values
/// of the name.
///
/// Contract: the name maps to exactly the new value; other names keep theirs. `insert`
/// panics when its table cannot grow, so the map must hold fewer names than
/// [`header_name_capacity`].
#[verifier::external_body]
fn header_map_insert(h: &mut http::HeaderMap, name: http::HeaderName, value: http::HeaderValue)
    requires
        has_room(header_values(*old(h))),
    ensures
        header_values(*final(h)) == header_values(*old(h)).insert(
            header_name_bytes(name),
            seq![header_value_bytes(value)],
        ),
{
    h.insert(name, value);
}

/// Parses a header name/value pair for request or client default headers: the name must
/// parse ([`Error::InvalidHeaderName`]) and every byte of the value must be valid in a
/// header value ([`Error::InvalidHeaderValue`]); both errors carry `http`'s message.
pub fn parse_request_header(key: &str, value: &str) -> (r: Result<
    (http::HeaderName, http::HeaderValue),
    Error,
>)
    ensures
        match r {
            Ok((n, v)) => parsed_header_name(encode_utf8(key@)) == Some(header_name_bytes(n))
                && valid_header_bytes(encode_utf8(value@)) && header_value_bytes(v) == encode_utf8(
                value@,
            ),
            Err(Error::InvalidHeaderName(m)) => parsed_header_name(encode_utf8(key@)) is None
                && m@ == "invalid HTTP header name"@,
            Err(Error::InvalidHeaderValue(m)) => parsed_header_name(encode_utf8(key@)) is Some
                && !valid_header_bytes(encode_utf8(value@)) && m@
                == "failed to parse header value"@,
            Err(_) => false,
        },
{
    let name = match parse_header_name(key) {
        Ok(n) => n,
        Err(m) => return Err(Error::InvalidHeaderName(m)),
    };
    let v = match parse_header_value(value.as_bytes()) {
        Ok(v) => v,
        Err(m) => return Err(Error::InvalidHeaderValue(m)),
    };
    Ok((name, v))
}

/// What the map holds after [`insert_header`]: the name maps to exactly the value.
pub open spec fn with_header(h: Map<Seq<u8>, Seq<Seq<u8>>>, name: Seq<u8>, value: Seq<u8>) -> Map<
    Seq<u8>,
    Seq<Seq<u8>>,
> {
    h.insert(name, seq![value])
}

/// Sets a parsed header, replacing earlier values of its name.
pub fn insert_header(h: &mut http::HeaderMap, name: http::HeaderName, value: http::HeaderValue)
    requires
        has_room(header_values(*old(h))),
    ensures
        header_values(*final(h)) == with_header(
            header_values(*old(h)),
            header_name_bytes(name),
            header_value_bytes(value),
        ),
{
    header_map_insert(h, name, value);
}

/// Sets `Content-Type` to `value` unless the map already holds a `Content-Type`.
pub fn default_content_type(h: &mut http::HeaderMap, value: &[u8])
    requires
        has_room(header_values(*old(h))),
        valid_header_bytes(value@),
    ensures
        header_values(*final(h)) == if header_values(*old(h)).contains_key(content_type_bytes()) {
            header_values(*old(h))
        } else {
            with_header(header_values(*old(h)), content_type_bytes(), value@)
        },
{
    let name = content_type_name();
    if !header_map_contains(h, &name) {
        match parse_header_value(value) {
            Ok(v) => header_map_insert(h, name, v),
            Err(_) => {},
        }
    }
}

/// Sets `Content-Type` to `value` when the map holds no `Content-Type` yet, or fails with
/// [`Error::InvalidHeaderValue`] when a byte of `value` is not valid in a header value.
pub fn set_content_type(h: &mut http::HeaderMap, value: &str) -> (r: Result<(), Error>)
    requires
        has_room(header_values(*old(h))),
    ensures
        r is Ok <==> valid_header_bytes(encode_utf8(value@)),
        r is Ok ==> header_values(*final(h)) == if header_values(*old(h)).contains_key(
            content_type_bytes(),
        ) {
            header_values(*old(h))
        } else {
            with_header(header_values(*old(h)), content_type_bytes(), encode_utf8(value@))
        },
        r is Err ==> (r matches Err(Error::InvalidHeaderValue(m)) && m@
            == "failed to parse header value"@ && header_values(*final(h)) == header_values(
            *old(h),
        )),
{
    match parse_header_value(value.as_bytes()) {
        Ok(v) => {
            let name = content_type_name();
            if !header_map_contains(h, &name) {
                header_map_insert(h, name, v);
            }
            Ok(())
        },
        Err(m) => Err(Error::InvalidHeaderValue(m)),
    }
}

} // verus!
