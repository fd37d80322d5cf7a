//! Built-in plugins: the configuration of the tracing logger.

use vstd::prelude::*;

verus! {

/// Tracing-based logger plugin (request, response, retry, error).
#[derive(Debug, Clone, Copy)]
pub struct LoggerPlugin {
    /// When `false`, hooks are registered but do not log.
    pub enabled: bool,
    /// When `true`, includes method and URL on each line.
    pub verbose: bool,
}

impl LoggerPlugin {
    /// Creates a plugin with logging enabled and verbose output off.
    pub fn new() -> (p: Self)
        ensures
            p.enabled && !p.verbose,
    {
        LoggerPlugin { enabled: true, verbose: false }
    }

    /// Enables or disables log output.
    pub fn enabled(self, enabled: bool) -> (p: Self)
        ensures
            p.enabled == enabled && p.verbose == self.verbose,
    {
        LoggerPlugin { enabled, ..self }
    }

    /// Enables verbose log fields.
    pub fn verbose(self, verbose: bool) -> (p: Self)
        ensures
            p.verbose == verbose && p.enabled == self.enabled,
    {
        LoggerPlugin { verbose, ..self }
    }

    /// Plugin id: `"logger"`.
    pub fn id(&self) -> (s: &'static str)
        ensures
            s@ == "logger"@,
    {
        "logger"
    }
}

/// Severity of a log line.
#[derive(Debug, Clone, Copy, PartialEq, Eq, Structural)]
pub enum LogLevel {
    Info,
    Warn,
    Error,
}

/// The hook calls the logger writes a line for.
#[derive(Debug, Clone, Copy, PartialEq, Eq, Structural)]
pub enum HookEvent {
    /// A request is about to be sent (`on_request`).
    Request,
    /// A buffered response arrived (`on_response`).
    Response,
    /// A streaming response's head arrived (`on_response_stream`).
    StreamResponse,
    /// The request will be retried (`on_retry`).
    Retry,
    /// The request failed (`on_error`).
    Failure,
}

/// One line of the logger: its level, its message, and whether it carries the header count
/// (verbose request and response lines).
#[derive(Debug, Clone, Copy)]
pub struct LogLine {
    pub level: LogLevel,
    pub message: &'static str,
    pub with_header_count: bool,
}

/// The level of the line for an event.
pub open spec fn event_level(e: HookEvent) -> LogLevel {
    match e {
        HookEvent::Retry => LogLevel::Warn,
        HookEvent::Failure => LogLevel::Error,
        _ => LogLevel::Info,
    }
}

/// The message of the line for an event.
pub open spec fn event_message(e: HookEvent) -> Seq<char> {
    match e {
        HookEvent::Request => "better-fetch request"@,
        HookEvent::Response => "better-fetch response"@,
        HookEvent::StreamResponse => "better-fetch stream response"@,
        HookEvent::Retry => "better-fetch retry"@,
        HookEvent::Failure => "better-fetch error"@,
    }
}

/// How many bytes of an error response body the error line previews.
pub const ERROR_BODY_PREVIEW_BYTES: usize = 256;

/// The attempt number a retry line announces (the next one).
pub fn next_attempt(retry_attempt: u32) -> (n: u64)
    ensures
        n == retry_attempt + 1,
{
    retry_attempt as u64 + 1
}

impl LoggerPlugin {
    /// The line the logger writes for `event`: none when disabled; request and response
    /// lines carry the header count when verbose; retries are warnings and failures
    /// errors.
    pub fn log_line(&self, event: HookEvent) -> (r: Option<LogLine>)
        ensures
            !self.enabled ==> r is None,
            self.enabled ==> (r matches Some(l) && l.level == event_level(event) && l.message@
                == event_message(event) && l.with_header_count == (self.verbose && (event
                is Request || event is Response || event is StreamResponse))),
    {
        if !self.enabled {
            return None;
        }
        let (level, message, counted) = match event {
            HookEvent::Request => (LogLevel::Info, "better-fetch request", true),
            HookEvent::Response => (LogLevel::Info, "better-fetch response", true),
            HookEvent::StreamResponse => (LogLevel::Info, "better-fetch stream response", true),
            HookEvent::Retry => (LogLevel::Warn, "better-fetch retry", false),
            HookEvent::Failure => (LogLevel::Error, "better-fetch error", false),
        };
        Some(LogLine { level, message, with_header_count: self.verbose && counted })
    }
}

impl Default for LoggerPlugin {
    fn default() -> (p: Self)
        ensures
            p.enabled && !p.verbose,
    {
        LoggerPlugin::new()
    }
}

} // verus!
