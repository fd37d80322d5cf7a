use better_fetch::error::Error;
use better_fetch::sse_stream::SseEventState;

#[test]
fn chunks_yield_events_in_order() {
    let mut s = SseEventState::new(None);
    assert_eq!(s.poll_queued(), None);
    assert!(s.on_chunk(b"data: hel").is_none());
    let first = s.on_chunk(b"lo\n\ndata: world\n\n").unwrap().unwrap();
    assert_eq!(first.data, "hello");
    let second = s.poll_queued().unwrap().unwrap();
    assert_eq!(second.data, "world");
    assert_eq!(s.poll_queued(), None);
}

#[test]
fn end_of_body_flushes_trailing_block_then_ends() {
    let mut s = SseEventState::new(None);
    assert!(s.on_chunk(b"event: tick\ndata: last").is_none());
    let ev = s.on_end().unwrap();
    assert_eq!(ev.event.as_deref(), Some("tick"));
    assert_eq!(ev.data, "last");
    assert_eq!(s.poll_queued(), Some(None));
}

#[test]
fn end_without_trailing_text_ends_stream() {
    let mut s = SseEventState::new(None);
    assert!(s.on_end().is_none());
    assert_eq!(s.poll_queued(), Some(None));
}

#[test]
fn limit_is_counted_across_chunks() {
    let mut s = SseEventState::new(Some(10));
    assert!(s.on_chunk(b"data: ab").is_none());
    match s.on_chunk(b"c\n\n") {
        Some(Err(Error::BodyTooLarge { limit })) => assert_eq!(limit, 10),
        other => panic!("unexpected {:?}", other),
    }
}

#[test]
fn exact_limit_is_allowed() {
    let mut s = SseEventState::new(Some(9));
    let ev = s.on_chunk(b"data: x\n\n").unwrap().unwrap();
    assert_eq!(ev.data, "x");
}

#[test]
fn invalid_utf8_chunk_is_an_error() {
    let mut s = SseEventState::new(None);
    match s.on_chunk(b"data: \xff\n\n") {
        Some(Err(Error::Config(m))) => assert!(m.starts_with("SSE chunk is not valid UTF-8")),
        other => panic!("unexpected {:?}", other),
    }
}
