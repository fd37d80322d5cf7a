use better_fetch::error::Error;

#[test]
fn status_and_status_text_accessors() {
    let err = Error::http(404, "not found".into(), None);
    assert_eq!(err.status(), Some(404));
    assert_eq!(err.status_text(), Some("Not Found"));
}

#[test]
fn hook_constructor_and_is_hook() {
    let err = Error::hook("blocked".into());
    assert!(err.is_hook());
    assert!(matches!(err, Error::Hook(msg) if msg == "blocked"));
}

#[test]
fn retry_exhausted_helper_sets_flag() {
    let err = Error::retry_exhausted(3, &Error::Timeout);
    assert!(err.is_retry_exhausted());
    assert!(matches!(
        err,
        Error::RetryExhausted {
            attempts: 3,
            last: Some(_)
        }
    ));
}

#[test]
fn retry_exhausted_keeps_last_message() {
    let err = Error::retry_exhausted(2, &Error::Transport("reset".into()));
    match err {
        Error::RetryExhausted { last: Some(t), .. } => assert_eq!(t, "transport error: reset"),
        _ => panic!("expected RetryExhausted"),
    }
}

#[test]
fn error_texts() {
    assert_eq!(Error::Timeout.to_text(), "request timed out");
    assert_eq!(Error::Cancelled.to_text(), "request was cancelled");
    assert_eq!(
        Error::RetryExhausted { attempts: 12, last: None }.to_text(),
        "retries exhausted after 12 attempts"
    );
    assert_eq!(
        Error::http(404, "nope".into(), None).to_text(),
        "HTTP 404 Not Found Not Found: nope"
    );
    assert_eq!(
        Error::http_with_status_text(799, "Odd".into(), "m".into(), None).to_text(),
        "HTTP 799 <unknown status code> Odd: m"
    );
    assert_eq!(Error::Other("plain".into()).to_text(), "plain");
    assert_eq!(
        Error::BodyTooLarge { limit: 0 }.to_text(),
        "response body exceeds limit of 0 bytes"
    );
}

#[test]
fn http_error_for_status_uses_reason_or_fallback() {
    match Error::http_error_for_status(503, Some(vec![1, 2])) {
        Error::Http { status, status_text, message, body } => {
            assert_eq!(status, 503);
            assert_eq!(status_text, "Service Unavailable");
            assert_eq!(message, "Service Unavailable");
            assert_eq!(body, Some(vec![1, 2]));
        }
        _ => panic!("expected Http"),
    }
    match Error::http_error_for_status(599, None) {
        Error::Http { status_text, message, .. } => {
            assert_eq!(status_text, "request failed");
            assert_eq!(message, "request failed");
        }
        _ => panic!("expected Http"),
    }
}

#[test]
fn http_without_reason_has_empty_status_text() {
    assert_eq!(Error::http(599, "x".into(), None).status_text(), Some(""));
    assert_eq!(Error::Timeout.status(), None);
    assert_eq!(Error::Timeout.status_text(), None);
}

#[test]
fn body_accessor_and_flags() {
    let err = Error::http(500, "e".into(), Some(vec![7]));
    assert_eq!(err.body(), Some(&vec![7]));
    assert!(Error::Cancelled.is_cancelled());
    assert!(!Error::Timeout.is_cancelled());
    let big = Error::BodyTooLarge { limit: 5 };
    assert!(big.is_body_too_large());
    assert_eq!(big.body_too_large_limit(), Some(5));
    assert_eq!(Error::Timeout.body_too_large_limit(), None);
}
