use better_fetch::hooks::response_body_preview;
use better_fetch::plugins::{next_attempt, HookEvent, LogLevel, LoggerPlugin, ERROR_BODY_PREVIEW_BYTES};

#[test]
fn preview_of_short_body_is_whole_text() {
    assert_eq!(response_body_preview(Some(b"hello"), 256).as_deref(), Some("hello"));
}

#[test]
fn preview_is_none_without_usable_body() {
    assert_eq!(response_body_preview(None, 10), None);
    assert_eq!(response_body_preview(Some(b""), 10), None);
    assert_eq!(response_body_preview(Some(&[0xff, 0xfe]), 10), None);
}

#[test]
fn preview_truncates_at_whole_characters() {
    assert_eq!(response_body_preview(Some(b"abcdef"), 4).as_deref(), Some("abcd…"));
    // "é" takes two bytes: three of them do not fit in five bytes.
    assert_eq!(response_body_preview(Some("ééé".as_bytes()), 5).as_deref(), Some("éé…"));
    assert_eq!(response_body_preview(Some("éé".as_bytes()), 1).as_deref(), Some("…"));
}

#[test]
fn logger_lines() {
    let quiet = LoggerPlugin::new().enabled(false);
    assert!(quiet.log_line(HookEvent::Request).is_none());
    let plain = LoggerPlugin::new();
    let line = plain.log_line(HookEvent::Request).unwrap();
    assert_eq!(line.level, LogLevel::Info);
    assert_eq!(line.message, "better-fetch request");
    assert!(!line.with_header_count);
    let verbose = LoggerPlugin::new().verbose(true);
    assert!(verbose.log_line(HookEvent::StreamResponse).unwrap().with_header_count);
    let retry = verbose.log_line(HookEvent::Retry).unwrap();
    assert_eq!(retry.level, LogLevel::Warn);
    assert!(!retry.with_header_count);
    assert_eq!(verbose.log_line(HookEvent::Failure).unwrap().level, LogLevel::Error);
    assert_eq!(next_attempt(u32::MAX), u32::MAX as u64 + 1);
    assert_eq!(ERROR_BODY_PREVIEW_BYTES, 256);
}
