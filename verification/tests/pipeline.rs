use better_fetch::body_limit::{accumulate_chunk, count_written, ChunkVerdict, MaxBytes};
use better_fetch::error::Error;
use better_fetch::pipeline::{
    http_body_from_context, response_outcome, stream_error_body, stream_peek_limit,
    take_body_for_attempt, HttpBody, ResponseOutcome, RetryLoop, TransportErrorAction,
};
use better_fetch::retry::{NoPredicate, RetryPolicy};

type Plain = RetryPolicy<NoPredicate>;

#[test]
fn max_bytes_ends_stream_after_limit_error() {
    let mut limit = MaxBytes::new(5);
    assert!(matches!(limit.on_chunk(4), ChunkVerdict::Pass));
    match limit.on_chunk(4) {
        ChunkVerdict::TooLarge(err) => {
            assert!(err.is_body_too_large());
            assert_eq!(err.body_too_large_limit(), Some(5));
        }
        ChunkVerdict::Pass => panic!("expected the limit error"),
    }
    assert!(limit.is_finished());
}

#[test]
fn max_bytes_allows_exact_limit() {
    let mut limit = MaxBytes::new(5);
    assert!(matches!(limit.on_chunk(3), ChunkVerdict::Pass));
    assert!(matches!(limit.on_chunk(2), ChunkVerdict::Pass));
    assert!(!limit.is_finished());
}

#[test]
fn accumulate_respects_limit() {
    let mut buf = Vec::new();
    accumulate_chunk(&mut buf, b"abc", Some(5)).unwrap();
    accumulate_chunk(&mut buf, b"de", Some(5)).unwrap();
    let err = accumulate_chunk(&mut buf, b"f", Some(5)).err().unwrap();
    assert!(matches!(err, Error::BodyTooLarge { limit: 5 }));
    assert_eq!(buf, b"abcde".to_vec());
    accumulate_chunk(&mut buf, b"f", None).unwrap();
    assert_eq!(buf, b"abcdef".to_vec());
}

#[test]
fn count_written_checks_overflow_and_limit() {
    assert_eq!(count_written(3, 4, Some(7)).unwrap(), 7);
    assert!(matches!(count_written(3, 5, Some(7)), Err(Error::BodyTooLarge { limit: 7 })));
    match count_written(u64::MAX, 1, None) {
        Err(Error::Config(m)) => assert_eq!(m, "response body length overflow"),
        _ => panic!("expected overflow"),
    }
}

#[test]
fn loop_retries_at_most_max_attempts() {
    let policy = Plain::count(2);
    let mut lp = RetryLoop::new(Some(&policy), false);
    assert_eq!(lp.on_response(503, false), Some(0));
    assert_eq!(lp.on_response(503, false), Some(1));
    assert_eq!(lp.on_response(503, false), None);
    assert_eq!(lp.attempt(), 2);
}

#[test]
fn loop_without_policy_never_retries() {
    let mut lp = RetryLoop::new(None::<&Plain>, false);
    assert_eq!(lp.on_response(503, true), None);
    match lp.on_transport_error(Error::Timeout) {
        TransportErrorAction::Return(Error::Timeout) => {}
        _ => panic!("expected the timeout back"),
    }
}

#[test]
fn loop_custom_predicate_decides() {
    let policy = RetryPolicy::count(1).with_should_retry(|s: u16| s == 404);
    let mut lp = RetryLoop::new(Some(&policy), false);
    assert!(lp.needs_peek());
    assert_eq!(lp.on_response(503, false), None);
    assert_eq!(lp.on_response(404, true), Some(0));
}

#[test]
fn loop_transport_errors() {
    let policy = Plain::count(1);
    let mut lp = RetryLoop::new(Some(&policy), false);
    assert!(matches!(lp.on_transport_error(Error::Cancelled), TransportErrorAction::Return(Error::Cancelled)));
    assert!(matches!(
        lp.on_transport_error(Error::Transport("reset".into())),
        TransportErrorAction::Retry { attempt: 0 }
    ));
    match lp.on_transport_error(Error::Timeout) {
        TransportErrorAction::Return(Error::RetryExhausted { attempts, last }) => {
            assert_eq!(attempts, 2);
            assert_eq!(last.as_deref(), Some("request timed out"));
        }
        _ => panic!("expected RetryExhausted"),
    }
    assert!(matches!(
        lp.on_transport_error(Error::Hook("x".into())),
        TransportErrorAction::Return(Error::Hook(_))
    ));
}

#[test]
fn streaming_body_is_not_replayed() {
    let policy = Plain::count(3);
    let mut lp = RetryLoop::new(Some(&policy), true);
    assert!(lp.begin_attempt().is_ok());
    assert_eq!(lp.on_response(502, false), Some(0));
    assert!(matches!(lp.begin_attempt(), Err(Error::NonReplayableBody)));
}

#[test]
fn response_outcomes() {
    assert!(matches!(response_outcome(204, None, true), ResponseOutcome::Success));
    match response_outcome(404, Some(b"x".to_vec()), false) {
        ResponseOutcome::HttpError { error, deliver } => {
            assert!(deliver);
            assert_eq!(error.status(), Some(404));
            assert_eq!(error.status_text(), Some("Not Found"));
        }
        _ => panic!("expected an HTTP error"),
    }
    match response_outcome(500, None, true) {
        ResponseOutcome::HttpError { deliver, .. } => assert!(!deliver),
        _ => panic!("expected an HTTP error"),
    }
}

#[test]
fn stream_helpers() {
    assert_eq!(stream_peek_limit(Some(10), 64), 10);
    assert_eq!(stream_peek_limit(Some(100), 64), 64);
    assert_eq!(stream_peek_limit(None, 64), 64);
    assert_eq!(stream_error_body(Vec::new()), None);
    assert_eq!(stream_error_body(vec![1]), Some(vec![1]));
}

#[test]
fn bodies_for_attempts() {
    let mut body: HttpBody<u8> = HttpBody::Stream(9);
    assert!(body.is_non_replayable());
    let first = take_body_for_attempt(&mut body, 0);
    assert!(matches!(first, HttpBody::Stream(9)));
    assert!(matches!(body, HttpBody::Empty));

    let mut bytes: HttpBody<u8> = HttpBody::Bytes(vec![1, 2]);
    let again = take_body_for_attempt(&mut bytes, 1);
    assert!(matches!(again, HttpBody::Bytes(ref b) if b == &vec![1, 2]));
    assert!(matches!(bytes, HttpBody::Bytes(_)));

    let from_ctx = http_body_from_context(Some(Vec::new()), HttpBody::<u8>::Bytes(vec![3]));
    assert!(matches!(from_ctx, HttpBody::Empty));
    let kept = http_body_from_context(None, HttpBody::<u8>::Bytes(vec![3]));
    assert!(matches!(kept, HttpBody::Bytes(_)));
    assert_eq!(HttpBody::<u8>::Bytes(vec![4]).for_context(), Some(vec![4]));
}

#[test]
fn loop_retries_exactly_max_attempts_when_every_attempt_fails() {
    let policy = Plain::count(3);
    let mut lp = RetryLoop::new(Some(&policy), false);
    let mut sent = 1;
    while lp.on_response(503, false).is_some() {
        sent += 1;
    }
    assert_eq!(sent, 4);
}
