//! Authentication configuration and the `Authorization` header it produces.
//!
//! Credential functions are type parameters (`F` for synchronous, `A` for asynchronous
//! resolvers); the application layer supplies them and resolves the credentials before it
//! asks [`Auth::authorization_value`] for the header.

use vstd::prelude::*;
use base64::Engine;
use crate::error::Error;
use crate::headers::{has_room, header_name_bytes, insert_header, with_header};
use crate::retry::header_values;
use crate::text::{append_range, chars_of};

verus! {

/// Source for credential values (static, sync, or async).
#[derive(Clone)]
pub enum TokenSource<F, A> {
    /// A fixed value.
    Static(String),
    /// A synchronous function returning the value (`None` = no credential).
    Fn(F),
    /// An asynchronous resolver.
    AsyncFn(A),
}

/// Authentication configuration for a client or request.
#[derive(Clone)]
pub enum Auth<F, A> {
    Bearer { token: TokenSource<F, A> },
    Basic { username: TokenSource<F, A>, password: TokenSource<F, A> },
    Custom { prefix: String, value: TokenSource<F, A> },
}

/// Whether every byte may stand in a header value (`http`'s `HeaderValue::from_str` check:
/// visible ASCII, obs-text and horizontal tab; no other control characters).
pub open spec fn valid_header_bytes(bytes: Seq<u8>) -> bool {
    forall|i: int| 0 <= i < bytes.len() ==> ((#[trigger] bytes[i] >= 32 && bytes[i] != 127)
        || bytes[i] == 9)
}

/// The character of the 6-bit number `n` in the standard base64 alphabet.
pub open spec fn base64_digit(n: int) -> char {
    if n < 26 {
        "ABCDEFGHIJKLMNOPQRSTUVWXYZ"@[n]
    } else if n < 52 {
        "abcdefghijklmnopqrstuvwxyz"@[n - 26]
    } else if n < 62 {
        "0123456789"@[n - 52]
    } else if n == 62 {
        '+'
    } else {
        '/'
    }
}

/// Standard base64 with padding (RFC 4648, section 4): each group of three bytes becomes
/// four characters of six bits each; a last group of one or two bytes is padded with `=`.
pub open spec fn base64_standard(bytes: Seq<u8>) -> Seq<char>
    decreases bytes.len(),
{
    if bytes.len() == 0 {
        Seq::<char>::empty()
    } else if bytes.len() == 1 {
        let b0 = bytes[0] as int;
        seq![base64_digit(b0 / 4), base64_digit((b0 % 4) * 16), '=', '=']
    } else if bytes.len() == 2 {
        let b0 = bytes[0] as int;
        let b1 = bytes[1] as int;
        seq![
            base64_digit(b0 / 4),
            base64_digit((b0 % 4) * 16 + b1 / 16),
            base64_digit((b1 % 16) * 4),
            '=',
        ]
    } else {
        let b0 = bytes[0] as int;
        let b1 = bytes[1] as int;
        let b2 = bytes[2] as int;
        seq![
            base64_digit(b0 / 4),
            base64_digit((b0 % 4) * 16 + b1 / 16),
            base64_digit((b1 % 16) * 4 + b2 / 64),
            base64_digit(b2 % 64),
        ] + base64_standard(bytes.skip(3))
    }
}

/// Encodes `bytes` with `base64::engine::general_purpose::STANDARD`.
///
/// Contract: the result is the standard base64 text of the bytes. The length bound keeps the encoder's size computation from overflowing.
#[verifier::external_body]
fn base64_encode(bytes: &[u8]) -> (r: String)
    requires
        bytes@.len() < usize::MAX / 2,
    ensures
        r@ == base64_standard(bytes@),
{
    base64::engine::general_purpose::STANDARD.encode(bytes)
}

/// `authorization`, as `http` stores the name.
pub open spec fn authorization_bytes() -> Seq<u8> {
    seq![97u8, 117, 116, 104, 111, 114, 105, 122, 97, 116, 105, 111, 110]
}

/// The `Authorization` header name (`http::header::AUTHORIZATION`).
///
/// Contract: its stored bytes are `authorization`.
#[verifier::external_body]
fn authorization_name() -> (r: http::HeaderName)
    ensures
        header_name_bytes(r) == authorization_bytes(),
{
    http::header::AUTHORIZATION
}

/// A type for the credential functions of an [`Auth`] that has none.
#[derive(Clone, Copy, Debug, Default)]
pub struct NoCredentialFn;

/// The header text `prefix` + `" "` + `value`.
pub open spec fn prefixed(prefix: Seq<char>, value: Seq<char>) -> Seq<char> {
    prefix + seq![' '] + value
}

pub open spec fn bearer_word() -> Seq<char> {
    seq!['B', 'e', 'a', 'r', 'e', 'r']
}

pub open spec fn basic_word() -> Seq<char> {
    seq!['B', 'a', 's', 'i', 'c']
}

/// The `Authorization` value before it is checked, from the resolved credentials
/// (`first`: token, username or custom value; `second`: password). `None` when a needed
/// credential resolved to nothing.
pub open spec fn authorization_candidate<F, A>(
    auth: Auth<F, A>,
    first: Option<Seq<char>>,
    second: Option<Seq<char>>,
) -> Option<Seq<char>> {
    match auth {
        Auth::Bearer { .. } => match first {
            Some(v) => Some(prefixed(bearer_word(), v)),
            None => None,
        },
        Auth::Basic { .. } => match (first, second) {
            (Some(u), Some(p)) => Some(
                prefixed(basic_word(), base64_standard(vstd::utf8::encode_utf8(u + seq![':'] + p))),
            ),
            _ => None,
        },
        Auth::Custom { prefix, .. } => match first {
            Some(v) => Some(prefixed(prefix@, v)),
            None => None,
        },
    }
}

/// The value of a credential source: a static source's own value, else what its function
/// returned.
pub open spec fn source_value<F, A>(src: TokenSource<F, A>, returned: Option<Seq<char>>) -> Option<
    Seq<char>,
> {
    match src {
        TokenSource::Static(s) => Some(s@),
        _ => returned,
    }
}

/// The credentials of `auth` (token, username or custom value; then password), given what
/// its credential functions returned.
pub open spec fn auth_credentials<F, A>(
    auth: Auth<F, A>,
    first: Option<Seq<char>>,
    second: Option<Seq<char>>,
) -> (Option<Seq<char>>, Option<Seq<char>>) {
    match auth {
        Auth::Bearer { token } => (source_value(token, first), None),
        Auth::Basic { username, password } => (
            source_value(username, first),
            source_value(password, second),
        ),
        Auth::Custom { value, .. } => (source_value(value, first), None),
    }
}

impl<F, A> TokenSource<F, A> {
    /// The credential of this source: a static value itself, else `returned`, what the
    /// source's function gave.
    pub fn resolve_with(&self, returned: Option<String>) -> (r: Option<String>)
        ensures
            r.deep_view() == source_value(*self, returned.deep_view()),
    {
        match self {
            TokenSource::Static(s) => Some(s.clone()),
            _ => returned,
        }
    }

}

pub open spec fn invalid_header_prefix() -> Seq<char> {
    "invalid authorization header: "@
}

/// Appends the characters of `t` to `s`.
fn append_str(s: &mut String, t: &str)
    ensures
        final(s)@ == old(s)@ + t@,
{
    let cs = chars_of(t);
    append_range(s, &cs, 0, cs.len());
    assert(cs@.subrange(0, cs@.len() as int) =~= t@);
}

impl<F, A> Auth<F, A> {
    /// Bearer token authentication with a fixed token.
    pub fn bearer(token: String) -> (r: Self)
        ensures
            r matches Auth::Bearer { token: TokenSource::Static(t) } && t@ == token@,
    {
        Auth::Bearer { token: TokenSource::Static(token) }
    }

    /// Bearer token authentication with a token function.
    pub fn bearer_fn(f: F) -> (r: Self)
        ensures
            r matches Auth::Bearer { token: TokenSource::Fn(g) } && g == f,
    {
        Auth::Bearer { token: TokenSource::Fn(f) }
    }

    /// Basic authentication with a fixed username and password.
    pub fn basic(username: String, password: String) -> (r: Self)
        ensures
            r matches Auth::Basic {
                username: TokenSource::Static(u),
                password: TokenSource::Static(p),
            } && u@ == username@ && p@ == password@,
    {
        Auth::Basic {
            username: TokenSource::Static(username),
            password: TokenSource::Static(password),
        }
    }

    /// The credentials of this configuration: each static source gives its own value, and a
    /// function source gives what its function returned (`first`: token, username or custom
    /// value; `second`: password).
    pub fn credentials(&self, first: Option<String>, second: Option<String>) -> (r: (
        Option<String>,
        Option<String>,
    ))
        ensures
            (r.0.deep_view(), r.1.deep_view()) == auth_credentials(
                *self,
                first.deep_view(),
                second.deep_view(),
            ),
    {
        match self {
            Auth::Bearer { token } => (token.resolve_with(first), None),
            Auth::Basic { username, password } => (
                username.resolve_with(first),
                password.resolve_with(second),
            ),
            Auth::Custom { value, .. } => (value.resolve_with(first), None),
        }
    }

    /// The `Authorization` header value: `Bearer <token>`, `Basic <base64(user:pass)>` or
    /// `<prefix> <value>` over the [`Auth::credentials`], where `first` and `second` are what
    /// the credential functions returned (static sources give their own values); `Ok(None)`
    /// when a needed credential is `None`, and [`Error::Other`] when the value is not a valid
    /// header value.
    pub fn authorization_value(&self, first: Option<String>, second: Option<String>) -> (r:
        Result<Option<String>, Error>)
        requires
            auth_credentials(*self, first.deep_view(), second.deep_view()).0 matches Some(u) ==> u.len()
                < usize::MAX / 16,
            auth_credentials(*self, first.deep_view(), second.deep_view()).1 matches Some(p) ==> p.len()
                < usize::MAX / 16,
        ensures
            match authorization_candidate(
                *self,
                auth_credentials(*self, first.deep_view(), second.deep_view()).0,
                auth_credentials(*self, first.deep_view(), second.deep_view()).1,
            ) {
                None => r == Ok::<Option<String>, Error>(None),
                Some(c) => if valid_header_bytes(vstd::utf8::encode_utf8(c)) {
                    r matches Ok(Some(v)) && v@ == c
                } else {
                    r matches Err(Error::Other(m)) && m@ == invalid_header_prefix()
                        + "failed to parse header value"@
                },
            },
    {
        let (a, b) = self.credentials(first, second);
        self.value_for(a, b)
    }

    /// The `Authorization` header value for the credentials `first` and `second`.
    fn value_for(&self, first: Option<String>, second: Option<String>) -> (r:
        Result<Option<String>, Error>)
        requires
            first matches Some(u) ==> u@.len() < usize::MAX / 16,
            second matches Some(p) ==> p@.len() < usize::MAX / 16,
        ensures
            match authorization_candidate(*self, first.deep_view(), second.deep_view()) {
                None => r == Ok::<Option<String>, Error>(None),
                Some(c) => if valid_header_bytes(vstd::utf8::encode_utf8(c)) {
                    r matches Ok(Some(v)) && v@ == c
                } else {
                    r matches Err(Error::Other(m)) && m@ == invalid_header_prefix()
                        + "failed to parse header value"@
                },
            },
    {
        let mut value = String::new();
        match self {
            Auth::Bearer { .. } => {
                match first {
                    Some(v) => {
                        append_str(&mut value, "Bearer ");
                        append_str(&mut value, v.as_str());
                        proof {
                            reveal_strlit("Bearer ");
                            assert(value@ =~= prefixed(bearer_word(), v@));
                        }
                    },
                    None => return Ok(None),
                }
            },
            Auth::Basic { .. } => {
                match (first, second) {
                    (Some(u), Some(p)) => {
                        let mut pair = String::new();
                        append_str(&mut pair, u.as_str());
                        append_str(&mut pair, ":");
                        append_str(&mut pair, p.as_str());
                        proof {
                            reveal_strlit(":");
                            assert(pair@ =~= u@ + seq![':'] + p@);
                            crate::text::lemma_encode_utf8_len(pair@);
                        }
                        let encoded = base64_encode(pair.as_str().as_bytes());
                        append_str(&mut value, "Basic ");
                        append_str(&mut value, encoded.as_str());
                        proof {
                            reveal_strlit("Basic ");
                            assert(value@ =~= prefixed(basic_word(), encoded@));
                        }
                    },
                    _ => return Ok(None),
                }
            },
            Auth::Custom { prefix, .. } => {
                match first {
                    Some(v) => {
                        append_str(&mut value, prefix.as_str());
                        append_str(&mut value, " ");
                        append_str(&mut value, v.as_str());
                        proof {
                            reveal_strlit(" ");
                            assert(value@ =~= prefixed(prefix@, v@));
                        }
                    },
                    None => return Ok(None),
                }
            },
        }
        match crate::headers::parse_header_value(value.as_str().as_bytes()) {
            Ok(_) => Ok(Some(value)),
            Err(detail) => {
                let mut message = String::new();
                append_str(&mut message, "invalid authorization header: ");
                append_str(&mut message, detail.as_str());
                Err(Error::Other(message))
            },
        }
    }

    /// Sets the `Authorization` header (see [`Auth::authorization_value`]; `first` and
    /// `second` are what the credential functions returned): nothing changes when a needed
    /// credential is `None`; an invalid value is an error and leaves the headers as they
    /// were; otherwise the header holds exactly the value.
    pub fn apply(&self, headers: &mut http::HeaderMap, first: Option<String>, second: Option<String>) -> (r:
        Result<(), Error>)
        requires
            auth_credentials(*self, first.deep_view(), second.deep_view()).0 matches Some(u) ==> u.len()
                < usize::MAX / 16,
            auth_credentials(*self, first.deep_view(), second.deep_view()).1 matches Some(p) ==> p.len()
                < usize::MAX / 16,
            has_room(header_values(*old(headers))),
        ensures
            match authorization_candidate(
                *self,
                auth_credentials(*self, first.deep_view(), second.deep_view()).0,
                auth_credentials(*self, first.deep_view(), second.deep_view()).1,
            ) {
                None => r is Ok && header_values(*final(headers)) == header_values(*old(headers)),
                Some(c) => if valid_header_bytes(vstd::utf8::encode_utf8(c)) {
                    r is Ok && header_values(*final(headers)) == with_header(
                        header_values(*old(headers)),
                        authorization_bytes(),
                        vstd::utf8::encode_utf8(c),
                    )
                } else {
                    r matches Err(Error::Other(m)) && m@ == invalid_header_prefix()
                        + "failed to parse header value"@ && header_values(*final(headers))
                        == header_values(*old(headers))
                },
            },
    {
        match self.authorization_value(first, second) {
            Ok(Some(value)) => {
                match crate::headers::parse_header_value(value.as_str().as_bytes()) {
                    Ok(v) => {
                        insert_header(headers, authorization_name(), v);
                        Ok(())
                    },
                    Err(_) => Ok(()),
                }
            },
            Ok(None) => Ok(()),
            Err(e) => Err(e),
        }
    }
}

} // verus!
