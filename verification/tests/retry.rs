use better_fetch::retry::{
    apply_jitter, default_should_retry, jittered, parse_retry_after, NoPredicate, RetryPolicy,
};
use http::{HeaderMap, StatusCode};
use std::time::Duration;

type Plain = RetryPolicy<NoPredicate>;

#[test]
fn default_should_retry_codes() {
    assert!(default_should_retry(StatusCode::REQUEST_TIMEOUT));
    assert!(default_should_retry(StatusCode::TOO_MANY_REQUESTS));
    assert!(default_should_retry(StatusCode::SERVICE_UNAVAILABLE));
    assert!(!default_should_retry(StatusCode::NOT_FOUND));
}

#[test]
fn count_policy_max_attempts() {
    assert_eq!(Plain::count(3).max_attempts(), 3);
}

#[test]
fn count_with_should_retry_stays_count() {
    let f = |status: u16| status == 404;
    let policy = RetryPolicy::count(2).with_should_retry(f);
    assert!(matches!(policy, RetryPolicy::Count { .. }));
    assert!(policy.should_retry_response(404, f(404), false));
    assert!(!policy.should_retry_response(503, f(503), false));
}

#[test]
fn linear_delay_is_constant() {
    let policy = Plain::linear(3, Duration::from_millis(500));
    assert_eq!(policy.delay_before_attempt(0), Duration::from_millis(500));
    assert_eq!(policy.delay_before_attempt(2), Duration::from_millis(500));
}

#[test]
fn exponential_delay_caps_at_max() {
    let policy = Plain::exponential(5, Duration::from_secs(1), Duration::from_secs(5));
    assert_eq!(policy.delay_before_attempt(0), Duration::from_secs(1));
    assert_eq!(policy.delay_before_attempt(10), Duration::from_secs(5));
}

#[test]
fn exponential_delay_doubles_and_saturates() {
    let policy = Plain::exponential(5, Duration::from_millis(100), Duration::MAX);
    assert_eq!(policy.delay_before_attempt(1), Duration::from_millis(200));
    assert_eq!(policy.delay_before_attempt(3), Duration::from_millis(800));
    let huge = Plain::exponential(5, Duration::MAX, Duration::MAX);
    assert_eq!(huge.delay_before_attempt(40), Duration::MAX);
}

#[test]
fn custom_should_retry_overrides_default() {
    let f = |status: u16| status == 404;
    let policy = RetryPolicy::linear(2, Duration::from_millis(1)).with_should_retry(f);
    assert!(policy.should_retry_response(404, f(404), false));
    assert!(!policy.should_retry_response(503, f(503), false));
}

#[test]
fn transport_failures_always_retry() {
    let policy = Plain::count(1);
    assert!(policy.should_retry_response(200, false, true));
    assert!(!policy.should_retry_response(200, false, false));
}

#[test]
fn parse_retry_after_seconds() {
    let mut headers = HeaderMap::new();
    headers.insert(http::header::RETRY_AFTER, "3".parse().unwrap());
    assert_eq!(parse_retry_after(&headers), Some(Duration::from_secs(3)));
}

#[test]
fn parse_retry_after_trims_and_accepts_plus() {
    let mut headers = HeaderMap::new();
    headers.insert(http::header::RETRY_AFTER, " +7 ".parse().unwrap());
    assert_eq!(parse_retry_after(&headers), Some(Duration::from_secs(7)));
    assert_eq!(parse_retry_after(&HeaderMap::new()), None);
}

#[test]
fn delay_after_response_uses_retry_after() {
    let mut headers = HeaderMap::new();
    headers.insert(http::header::RETRY_AFTER, "2".parse().unwrap());
    let policy = Plain::linear(1, Duration::from_millis(100)).with_jitter(false);
    assert_eq!(policy.delay_after_response(0, &headers), Duration::from_secs(2));
}

#[test]
fn retry_after_is_not_reduced_by_jitter() {
    let mut headers = HeaderMap::new();
    headers.insert(http::header::RETRY_AFTER, "5".parse().unwrap());
    let policy = Plain::exponential(3, Duration::from_secs(1), Duration::from_secs(30));
    assert!(policy.uses_jitter());
    for _ in 0..20 {
        assert_eq!(policy.delay_after_response(0, &headers), Duration::from_secs(5));
    }
}

#[test]
fn parse_retry_after_future_http_date() {
    let future = std::time::SystemTime::now() + Duration::from_secs(3600);
    let mut headers = HeaderMap::new();
    headers.insert(
        http::header::RETRY_AFTER,
        httpdate::fmt_http_date(future).parse().unwrap(),
    );
    let delay = parse_retry_after(&headers).expect("date delay");
    assert!(delay > Duration::from_secs(3000) && delay <= Duration::from_secs(3600));
}

#[test]
fn parse_retry_after_past_http_date_is_zero() {
    let mut headers = HeaderMap::new();
    headers.insert(
        http::header::RETRY_AFTER,
        "Sun, 06 Nov 1994 08:49:37 GMT".parse().unwrap(),
    );
    assert_eq!(parse_retry_after(&headers), Some(Duration::ZERO));
}

#[test]
fn jitter_stays_within_bounds() {
    let base = Duration::from_secs(4);
    for _ in 0..20 {
        let jittered = apply_jitter(base);
        assert!(jittered >= Duration::from_secs(2));
        assert!(jittered <= base);
    }
}

#[test]
fn jittered_is_half_plus_draw() {
    assert_eq!(jittered(Duration::from_nanos(10), 3), Duration::from_nanos(8));
    assert_eq!(jittered(Duration::ZERO, 0), Duration::ZERO);
}

#[test]
fn parse_retry_after_invalid_is_none() {
    let mut headers = HeaderMap::new();
    headers.insert(http::header::RETRY_AFTER, "not-a-number".parse().unwrap());
    assert!(parse_retry_after(&headers).is_none());
}

#[test]
fn exponential_uses_jitter_by_default() {
    let policy = Plain::exponential(3, Duration::from_secs(1), Duration::from_secs(8));
    assert!(policy.uses_jitter());
}

#[test]
fn linear_jitter_disabled_by_default() {
    assert!(!Plain::linear(1, Duration::from_secs(1)).uses_jitter());
}

#[test]
fn count_never_jitters() {
    let policy = Plain::count(2).with_jitter(true);
    assert!(!policy.uses_jitter());
    assert_eq!(policy.delay_after_response(0, &HeaderMap::new()), Duration::from_secs(1));
}

#[test]
fn delay_for_prefers_retry_after_then_jitter_draw() {
    let policy = Plain::exponential(3, Duration::from_nanos(100), Duration::from_secs(1));
    assert_eq!(policy.delay_for(0, Some(Duration::from_secs(9)), 0), Duration::from_secs(9));
    assert_eq!(policy.delay_for(1, None, 7), Duration::from_nanos(107));
    let fixed = Plain::linear(1, Duration::from_nanos(100));
    assert_eq!(fixed.delay_for(0, None, 7), Duration::from_nanos(100));
}
