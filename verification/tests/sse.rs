use better_fetch::sse::{parse_sse_events, SseDecoder};

#[test]
fn parses_simple_event() {
    let events = parse_sse_events("data: hello\n\n");
    assert_eq!(events.len(), 1);
    assert_eq!(events[0].data, "hello");
}

#[test]
fn parses_event_name_and_multiline_data() {
    let raw = "event: ping\ndata: line1\ndata: line2\n\n";
    let events = parse_sse_events(raw);
    assert_eq!(events[0].event.as_deref(), Some("ping"));
    assert_eq!(events[0].data, "line1\nline2");
}

#[test]
fn decoder_splits_across_chunks() {
    let mut decoder = SseDecoder::new();
    let first = decoder.push_chunk(b"data: hel").unwrap();
    assert!(first.is_empty());
    let second = decoder.push_chunk(b"lo\n\ndata: world\n\n").unwrap();
    assert_eq!(second.len(), 2);
    assert_eq!(second[0].data, "hello");
    assert_eq!(second[1].data, "world");
}

#[test]
fn parses_crlf_delimited_events() {
    let events = parse_sse_events("data: a\r\n\r\ndata: b\r\n\r\n");
    assert_eq!(events.len(), 2);
    assert_eq!(events[0].data, "a");
    assert_eq!(events[1].data, "b");
}

#[test]
fn decoder_handles_crlf_split_across_chunks() {
    let mut decoder = SseDecoder::new();
    // Chunk ends mid-CRLF (lone `\r`); the next chunk supplies the `\n`.
    assert!(decoder.push_chunk(b"data: hello\r").unwrap().is_empty());
    let events = decoder.push_chunk(b"\n\r\n").unwrap();
    assert_eq!(events.len(), 1);
    assert_eq!(events[0].data, "hello");
}

#[test]
fn keeps_significant_leading_space_after_single_strip() {
    let events = parse_sse_events("data:  two\n\n");
    assert_eq!(events[0].data, " two");
}

#[test]
fn id_and_comment_lines() {
    let events = parse_sse_events(": keep-alive\nid: 7\nevent:tick\ndata:x\n\n");
    assert_eq!(events.len(), 1);
    assert_eq!(events[0].id.as_deref(), Some("7"));
    assert_eq!(events[0].event.as_deref(), Some("tick"));
    assert_eq!(events[0].data, "x");
}

#[test]
fn blocks_without_fields_are_skipped() {
    let events = parse_sse_events(": only a comment\n\nretry: 10\n\n\n\ndata: z");
    assert_eq!(events.len(), 1);
    assert_eq!(events[0].data, "z");
    assert_eq!(events[0].event, None);
}

#[test]
fn lone_cr_terminates_lines() {
    let events = parse_sse_events("data: a\r\rdata: b\r\r");
    assert_eq!(events.len(), 2);
    assert_eq!(events[1].data, "b");
}

#[test]
fn decoder_finish_parses_unterminated_tail() {
    let mut decoder = SseDecoder::new();
    assert!(decoder.push_chunk(b"data: tail").unwrap().is_empty());
    let events = decoder.finish();
    assert_eq!(events.len(), 1);
    assert_eq!(events[0].data, "tail");
}

#[test]
fn decoder_finish_resolves_pending_cr() {
    let mut decoder = SseDecoder::new();
    assert!(decoder.push_chunk(b"data: x\r").unwrap().is_empty());
    let events = decoder.finish();
    assert_eq!(events.len(), 1);
    assert_eq!(events[0].data, "x");
}

#[test]
fn decoder_finish_of_whitespace_is_empty() {
    let mut decoder = SseDecoder::new();
    assert!(decoder.push_chunk(b"data: a\n\n \n").unwrap().len() == 1);
    assert!(decoder.finish().is_empty());
}

#[test]
fn decoder_rejects_invalid_utf8_and_keeps_state() {
    let mut decoder = SseDecoder::new();
    assert!(decoder.push_chunk(b"data: ok").unwrap().is_empty());
    let err = decoder.push_chunk(&[0xff, 0xfe]).unwrap_err();
    assert!(matches!(err, better_fetch::error::Error::Config(ref m) if m.starts_with("SSE chunk is not valid UTF-8")));
    let events = decoder.push_chunk(b"\n\n").unwrap();
    assert_eq!(events.len(), 1);
    assert_eq!(events[0].data, "ok");
}

#[test]
fn chunked_decoding_matches_whole_parse() {
    let raw = "event: a\r\ndata: 1\r\n\r\ndata: 2\n\ndata: 3\r\r";
    let whole = parse_sse_events(raw);
    let bytes = raw.as_bytes();
    for split in 1..bytes.len() {
        let mut decoder = SseDecoder::new();
        let mut events = decoder.push_chunk(&bytes[..split]).unwrap();
        events.extend(decoder.push_chunk(&bytes[split..]).unwrap());
        events.extend(decoder.finish());
        assert_eq!(events, whole, "split at {split}");
    }
}

#[test]
fn unterminated_tail_with_trailing_space_differs_from_whole_parse() {
    // The whole-buffer parse trims every block; `finish` keeps the final block as it is.
    assert_eq!(parse_sse_events("data: x ")[0].data, "x");
    let mut decoder = SseDecoder::new();
    decoder.push_chunk(b"data: x ").unwrap();
    assert_eq!(decoder.finish()[0].data, "x ");
}

#[test]
fn complete_stream_in_chunks_leaves_nothing_to_finish() {
    let raw = "data: 1\r\n\r\nevent: e\ndata: 2\n\n";
    let whole = parse_sse_events(raw);
    let bytes = raw.as_bytes();
    let mut decoder = SseDecoder::new();
    let mut events = decoder.push_chunk(b"").unwrap();
    events.extend(decoder.push_chunk(&bytes[..5]).unwrap());
    events.extend(decoder.push_chunk(b"").unwrap());
    events.extend(decoder.push_chunk(&bytes[5..]).unwrap());
    assert_eq!(events, whole);
    assert!(decoder.finish().is_empty());
}

#[test]
fn empty_chunk_flushes_a_held_back_cr() {
    let mut decoder = SseDecoder::new();
    decoder.push_chunk(b"data: 1\r").unwrap();
    decoder.push_chunk(b"").unwrap();
    // The `\r` already ended the line, so this `\n` is a blank line and ends the event.
    let events = decoder.push_chunk(b"\n").unwrap();
    assert_eq!(events.len(), 1);
    assert_eq!(events[0].data, "1");
}

#[test]
fn flushed_cr_before_a_plain_chunk_matches_whole_parse() {
    let mut decoder = SseDecoder::new();
    let mut events = decoder.push_chunk(b"data: x\r").unwrap();
    events.extend(decoder.push_chunk(b"").unwrap());
    events.extend(decoder.push_chunk(b"data: y\n\n").unwrap());
    events.extend(decoder.finish());
    assert_eq!(events, parse_sse_events("data: x\rdata: y\n\n"));
}

#[test]
fn flushed_cr_meeting_lf_splits_the_event() {
    let mut decoder = SseDecoder::new();
    let mut events = decoder.push_chunk(b"data: x\r").unwrap();
    events.extend(decoder.push_chunk(b"").unwrap());
    events.extend(decoder.push_chunk(b"\ndata: y\n\n").unwrap());
    events.extend(decoder.finish());
    assert_eq!(events.len(), 2);
    assert_eq!(parse_sse_events("data: x\r\ndata: y\n\n").len(), 1);
}
