use better_fetch::auth::{Auth, NoCredentialFn, TokenSource};
use better_fetch::error::Error;

type PlainAuth = Auth<NoCredentialFn, NoCredentialFn>;

#[test]
fn bearer_header_value() {
    let auth = PlainAuth::bearer("abc".to_string());
    let v = auth.authorization_value(Some("abc".into()), None).unwrap();
    assert_eq!(v.as_deref(), Some("Bearer abc"));
}

#[test]
fn basic_header_value_is_base64_of_user_colon_pass() {
    let auth = PlainAuth::basic("user".into(), "pass".into());
    let v = auth.authorization_value(Some("user".into()), Some("pass".into())).unwrap();
    assert_eq!(v.as_deref(), Some("Basic dXNlcjpwYXNz"));
}

#[test]
fn custom_prefix_header_value() {
    let auth: PlainAuth = Auth::Custom { prefix: "Token".into(), value: TokenSource::Static("t1".into()) };
    let v = auth.authorization_value(Some("t1".into()), None).unwrap();
    assert_eq!(v.as_deref(), Some("Token t1"));
}

#[test]
fn missing_credential_gives_no_header() {
    let auth: PlainAuth = Auth::Basic {
        username: TokenSource::Static("user".into()),
        password: TokenSource::Fn(NoCredentialFn),
    };
    assert_eq!(auth.authorization_value(None, None).unwrap(), None);
    let bearer = PlainAuth::bearer_fn(NoCredentialFn);
    assert_eq!(bearer.authorization_value(None, None).unwrap(), None);
}

#[test]
fn control_characters_are_refused() {
    let auth = PlainAuth::bearer("a\nb".into());
    let err = auth.authorization_value(None, None).unwrap_err();
    assert!(matches!(err, Error::Other(ref m) if m.starts_with("invalid authorization header: ")));
}

#[test]
fn constructors_hold_static_tokens() {
    assert!(matches!(PlainAuth::bearer("x".into()), Auth::Bearer { token: TokenSource::Static(ref t) } if t == "x"));
    assert!(matches!(PlainAuth::basic("u".into(), "p".into()),
        Auth::Basic { username: TokenSource::Static(ref u), password: TokenSource::Static(ref p) } if u == "u" && p == "p"));
}

#[test]
fn basic_header_value_pads_short_groups() {
    let auth = PlainAuth::basic("a".into(), "".into());
    let v = auth.authorization_value(None, None).unwrap();
    assert_eq!(v.as_deref(), Some("Basic YTo="));
    let auth: PlainAuth = Auth::Basic { username: TokenSource::Fn(NoCredentialFn), password: TokenSource::Fn(NoCredentialFn) };
    let v = auth.authorization_value(Some("ab".into()), Some("c".into())).unwrap();
    assert_eq!(v.as_deref(), Some("Basic YWI6Yw=="));
}

#[test]
fn static_sources_give_their_own_values() {
    let auth = PlainAuth::bearer("abc".into());
    assert_eq!(auth.authorization_value(None, None).unwrap().as_deref(), Some("Bearer abc"));
    assert_eq!(auth.authorization_value(Some("other".into()), None).unwrap().as_deref(), Some("Bearer abc"));
    let bearer = PlainAuth::bearer_fn(NoCredentialFn);
    assert_eq!(bearer.authorization_value(Some("t".into()), None).unwrap().as_deref(), Some("Bearer t"));
    let (a, b) = PlainAuth::basic("u".into(), "p".into()).credentials(None, None);
    assert_eq!((a.as_deref(), b.as_deref()), (Some("u"), Some("p")));
}
