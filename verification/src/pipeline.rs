//! The decisions of the request loop, as a state machine.
//!
//! The application layer sends each attempt, runs the hooks and sleeps between attempts;
//! this module decides, from what an attempt produced, whether to retry, to deliver the
//! response, or to fail, and which error is returned. Request bodies and the settings that
//! a request inherits from its client are resolved here too.

use vstd::prelude::*;
use crate::error::{error_text, is_success_code, reason_or, Error};
use crate::retry::{default_retry_status, spec_has_custom, spec_max_attempts, RetryPolicy};

verus! {

// ---------------------------------------------------------------------------------------
// Request bodies
// ---------------------------------------------------------------------------------------

/// Request body for the transport layer; `S` is the type of a streaming body.
pub enum HttpBody<S> {
    /// No body.
    Empty,
    /// Raw bytes body.
    Bytes(Vec<u8>),
    /// Streaming request body (not replayable for automatic retry).
    Stream(S),
}

impl<S> HttpBody<S> {
    /// Returns `true` when the body cannot be sent again on retry (a stream).
    pub fn is_non_replayable(&self) -> (b: bool)
        ensures
            b == (*self is Stream),
    {
        match self {
            HttpBody::Stream(_) => true,
            _ => false,
        }
    }

    /// A copy of an empty or byte body; a stream cannot be copied and becomes `Empty`.
    pub fn clone_body(&self) -> (r: HttpBody<S>)
        ensures
            match *self {
                HttpBody::Bytes(b) => r matches HttpBody::Bytes(c) && c@ == b@,
                _ => r is Empty,
            },
    {
        match self {
            HttpBody::Bytes(b) => {
                let c = b.clone();
                assert(c@ =~= b@);
                HttpBody::Bytes(c)
            },
            _ => HttpBody::Empty,
        }
    }

    /// The body as hooks see it: the bytes of a byte body, nothing otherwise.
    pub fn for_context(&self) -> (r: Option<Vec<u8>>)
        ensures
            match *self {
                HttpBody::Bytes(b) => r matches Some(c) && c@ == b@,
                _ => r is None,
            },
    {
        match self {
            HttpBody::Bytes(b) => {
                let c = b.clone();
                assert(c@ =~= b@);
                Some(c)
            },
            _ => None,
        }
    }
}

/// The body sent after the request hooks ran: the hook-visible body when it was set (empty
/// bytes meaning no body), else the body of the builder.
pub fn http_body_from_context<S>(ctx_body: Option<Vec<u8>>, fallback: HttpBody<S>) -> (r:
    HttpBody<S>)
    ensures
        match ctx_body {
            Some(b) => if b@.len() > 0 {
                r == HttpBody::<S>::Bytes(b)
            } else {
                r is Empty
            },
            None => r == fallback,
        },
{
    match ctx_body {
        Some(b) => if b.len() > 0 {
            HttpBody::Bytes(b)
        } else {
            HttpBody::Empty
        },
        None => fallback,
    }
}

/// The body for attempt `attempt`: the first attempt takes a streaming body out of `body`
/// (leaving `Empty`); otherwise a copy of the body is sent and `body` stays.
pub fn take_body_for_attempt<S>(body: &mut HttpBody<S>, attempt: u32) -> (r: HttpBody<S>)
    ensures
        (*old(body) is Stream && attempt == 0) ==> (r == *old(body) && *final(body) is Empty),
        !(*old(body) is Stream && attempt == 0) ==> *final(body) == *old(body) && match *old(
            body,
        ) {
            HttpBody::Bytes(b) => r matches HttpBody::Bytes(c) && c@ == b@,
            _ => r is Empty,
        },
{
    if attempt == 0 && body.is_non_replayable() {
        let mut taken = HttpBody::Empty;
        std::mem::swap(&mut taken, body);
        taken
    } else {
        body.clone_body()
    }
}

// ---------------------------------------------------------------------------------------
// The retry loop
// ---------------------------------------------------------------------------------------

/// What the loop does after a transport failure.
pub enum TransportErrorAction {
    /// Back off (with the policy delay for attempt `attempt`) and send again.
    Retry { attempt: u32 },
    /// Give up with this error.
    Return(Error),
}

/// Whether a failed transport is retried under a policy (transport errors and timeouts).
pub open spec fn spec_transport_retryable(err: Error) -> bool {
    err is Transport || err is Timeout
}

/// Whether a transport failure is retryable (transport errors and timeouts).
pub fn transport_retryable(err: &Error) -> (b: bool)
    ensures
        b == spec_transport_retryable(*err),
{
    match err {
        Error::Transport(_) => true,
        Error::Timeout => true,
        _ => false,
    }
}

/// The state of one request's retry loop: the current attempt (0 for the initial request)
/// and what the retry policy and the body allow.
pub struct RetryLoop {
    attempt: u32,
    max_attempts: u32,
    has_policy: bool,
    has_custom: bool,
    non_replayable: bool,
}

/// Whether a response is retried by the policy (ignoring the attempt limit): never without
/// a policy; the custom predicate's verdict when one is set; else the default statuses.
pub open spec fn response_retry_wanted(
    has_policy: bool,
    has_custom: bool,
    status: u16,
    custom_verdict: bool,
) -> bool {
    has_policy && if has_custom {
        custom_verdict
    } else {
        default_retry_status(status)
    }
}

/// Without a custom predicate, a policy retries a response exactly when its status is one
/// of 408, 429, 502, 503 and 504 (and never without a policy).
pub proof fn law_default_retry_statuses(status: u16, custom_verdict: bool)
    ensures
        default_retry_status(status) <==> (status == 408 || status == 429 || status == 502
            || status == 503 || status == 504),
        response_retry_wanted(true, false, status, custom_verdict) <==> (status == 408 || status
            == 429 || status == 502 || status == 503 || status == 504),
        !response_retry_wanted(false, false, status, custom_verdict),
{
}

/// What the loop does after a transport failure, and its next attempt number.
pub open spec fn transport_step(
    attempt: u32,
    max_attempts: u32,
    has_policy: bool,
    err: Error,
) -> (Option<u32>, bool) {
    // (the attempt to back off for, when retried; whether the error becomes
    // `RetryExhausted`)
    if err is Cancelled {
        (None, false)
    } else if spec_transport_retryable(err) && has_policy && attempt < max_attempts {
        (Some(attempt), false)
    } else {
        (None, spec_transport_retryable(err) && has_policy)
    }
}

/// One thing an attempt can end in.
pub enum LoopEvent {
    /// A response arrived with `status`; `custom_verdict` is what the custom retry
    /// predicate said of it (ignored without one).
    Response { status: u16, custom_verdict: bool },
    /// The transport failed with this error.
    Failure(Error),
}

/// Whether `ev` asks for a retry, the retry limit aside: a response that the policy wants
/// retried, or a retryable transport failure under a policy.
pub open spec fn event_wants_retry(has_policy: bool, has_custom: bool, ev: LoopEvent) -> bool {
    match ev {
        LoopEvent::Response { status, custom_verdict } => response_retry_wanted(
            has_policy,
            has_custom,
            status,
            custom_verdict,
        ),
        LoopEvent::Failure(err) => !(err is Cancelled) && spec_transport_retryable(err)
            && has_policy,
    }
}

/// Whether the loop at `attempt` retries after `ev`.
pub open spec fn event_retries(
    attempt: u32,
    max_attempts: u32,
    has_policy: bool,
    has_custom: bool,
    ev: LoopEvent,
) -> bool {
    attempt < max_attempts && event_wants_retry(has_policy, has_custom, ev)
}

/// The number of retries a loop starting at `attempt` makes over the events `evs`, each
/// retry moving to the next attempt.
pub open spec fn retries_over(
    attempt: u32,
    max_attempts: u32,
    has_policy: bool,
    has_custom: bool,
    evs: Seq<LoopEvent>,
) -> nat
    decreases evs.len(),
{
    if evs.len() == 0 {
        0
    } else if event_retries(attempt, max_attempts, has_policy, has_custom, evs[0]) {
        1 + retries_over(
            (attempt + 1) as u32,
            max_attempts,
            has_policy,
            has_custom,
            evs.drop_first(),
        )
    } else {
        retries_over(attempt, max_attempts, has_policy, has_custom, evs.drop_first())
    }
}

proof fn lemma_retries_over_bounded(
    attempt: u32,
    max_attempts: u32,
    has_policy: bool,
    has_custom: bool,
    evs: Seq<LoopEvent>,
)
    requires
        attempt <= max_attempts,
    ensures
        retries_over(attempt, max_attempts, has_policy, has_custom, evs) <= max_attempts
            - attempt,
    decreases evs.len(),
{
    if evs.len() > 0 {
        if event_retries(attempt, max_attempts, has_policy, has_custom, evs[0]) {
            lemma_retries_over_bounded(
                (attempt + 1) as u32,
                max_attempts,
                has_policy,
                has_custom,
                evs.drop_first(),
            );
        } else {
            lemma_retries_over_bounded(
                attempt,
                max_attempts,
                has_policy,
                has_custom,
                evs.drop_first(),
            );
        }
    }
}

/// A request is sent at most `max_attempts + 1` times: whatever the attempts end in, the
/// loop retries at most `max_attempts` times (`RetryPolicy::count(2)` performs up to three
/// HTTP calls).
pub proof fn law_retries_bounded(
    max_attempts: u32,
    has_policy: bool,
    has_custom: bool,
    evs: Seq<LoopEvent>,
)
    ensures
        retries_over(0, max_attempts, has_policy, has_custom, evs) <= max_attempts,
{
    lemma_retries_over_bounded(0, max_attempts, has_policy, has_custom, evs);
}

/// At the limit, nothing more is retried.
proof fn lemma_retries_at_limit(
    max_attempts: u32,
    has_policy: bool,
    has_custom: bool,
    evs: Seq<LoopEvent>,
)
    ensures
        retries_over(max_attempts, max_attempts, has_policy, has_custom, evs) == 0,
    decreases evs.len(),
{
    if evs.len() > 0 {
        lemma_retries_at_limit(max_attempts, has_policy, has_custom, evs.drop_first());
    }
}

proof fn lemma_retries_over_exact(
    attempt: u32,
    max_attempts: u32,
    has_policy: bool,
    has_custom: bool,
    evs: Seq<LoopEvent>,
)
    requires
        attempt <= max_attempts,
        evs.len() >= max_attempts - attempt,
        forall|k: int| 0 <= k < evs.len() ==> event_wants_retry(has_policy, has_custom, #[trigger] evs[k]),
    ensures
        retries_over(attempt, max_attempts, has_policy, has_custom, evs) == max_attempts - attempt,
    decreases evs.len(),
{
    if attempt == max_attempts {
        lemma_retries_at_limit(max_attempts, has_policy, has_custom, evs);
    } else {
        let rest = evs.drop_first();
        assert(event_wants_retry(has_policy, has_custom, evs[0]));
        assert forall|k: int| 0 <= k < rest.len() implies event_wants_retry(
            has_policy,
            has_custom,
            #[trigger] rest[k],
        ) by {
            assert(rest[k] == evs[k + 1]);
        }
        lemma_retries_over_exact((attempt + 1) as u32, max_attempts, has_policy, has_custom, rest);
    }
}

/// When every attempt ends in an outcome that asks for a retry, the loop retries exactly
/// `max_attempts` times: the request is sent exactly `max_attempts + 1` times
/// (`RetryPolicy::count(2)` then performs three HTTP calls).
pub proof fn law_retries_exact(
    max_attempts: u32,
    has_policy: bool,
    has_custom: bool,
    evs: Seq<LoopEvent>,
)
    requires
        evs.len() >= max_attempts,
        forall|k: int| 0 <= k < evs.len() ==> event_wants_retry(has_policy, has_custom, #[trigger] evs[k]),
    ensures
        retries_over(0, max_attempts, has_policy, has_custom, evs) == max_attempts,
{
    lemma_retries_over_exact(0, max_attempts, has_policy, has_custom, evs);
}

/// Without a retry policy nothing is retried: the loop (whose limit is then 0) never
/// retries, whatever the attempt ends in.
pub proof fn law_no_policy_no_retry(attempt: u32, has_custom: bool, ev: LoopEvent)
    ensures
        !event_retries(attempt, 0, false, has_custom, ev),
{
}

/// A cancelled request is never retried, and neither is a failure that is not a transport
/// error or a timeout.
pub proof fn law_cancelled_not_retried(
    attempt: u32,
    max_attempts: u32,
    has_policy: bool,
    has_custom: bool,
    err: Error,
)
    requires
        !spec_transport_retryable(err),
    ensures
        !event_retries(attempt, max_attempts, has_policy, has_custom, LoopEvent::Failure(err)),
{
}

impl RetryLoop {
    /// The attempt about to be sent (0 for the initial request).
    pub closed spec fn spec_attempt(self) -> u32 {
        self.attempt
    }

    /// The maximum number of retries after the initial request.
    pub closed spec fn spec_max_attempts(self) -> u32 {
        self.max_attempts
    }

    /// Whether a retry policy is configured.
    pub closed spec fn spec_has_policy(self) -> bool {
        self.has_policy
    }

    /// Whether the policy has a custom retry predicate.
    pub closed spec fn spec_has_custom(self) -> bool {
        self.has_custom
    }

    /// Whether the request body cannot be sent twice.
    pub closed spec fn spec_non_replayable(self) -> bool {
        self.non_replayable
    }

    /// The loop's invariant: the attempt never passes the retry limit, and without a policy
    /// there is no retry at all.
    pub closed spec fn wf(self) -> bool {
        &&& self.attempt <= self.max_attempts
        &&& !self.has_policy ==> self.max_attempts == 0
        &&& !self.has_policy ==> !self.has_custom
    }

    /// The loop of a request with `policy` (none: no retry) and a body that is or is not
    /// replayable.
    pub fn new<P>(policy: Option<&RetryPolicy<P>>, non_replayable: bool) -> (r: RetryLoop)
        ensures
            r.wf(),
            r.spec_attempt() == 0,
            r.spec_has_policy() == policy is Some,
            r.spec_max_attempts() == match policy {
                Some(p) => spec_max_attempts(*p),
                None => 0,
            },
            r.spec_has_custom() == match policy {
                Some(p) => spec_has_custom(*p),
                None => false,
            },
            r.spec_non_replayable() == non_replayable,
    {
        match policy {
            Some(p) => RetryLoop {
                attempt: 0,
                max_attempts: p.max_attempts(),
                has_policy: true,
                has_custom: p.has_custom_should_retry(),
                non_replayable,
            },
            None => RetryLoop {
                attempt: 0,
                max_attempts: 0,
                has_policy: false,
                has_custom: false,
                non_replayable,
            },
        }
    }

    /// The attempt about to be sent (0 for the initial request).
    pub fn attempt(&self) -> (n: u32)
        ensures
            n == self.spec_attempt(),
    {
        self.attempt
    }

    /// Whether a streaming response must be peeked before the retry decision (a custom
    /// predicate reads the body).
    pub fn needs_peek(&self) -> (b: bool)
        ensures
            b == (self.spec_has_policy() && self.spec_has_custom()),
    {
        self.has_policy && self.has_custom
    }

    /// Checks that the attempt may be sent: a streaming body cannot be sent again.
    pub fn begin_attempt(&self) -> (r: Result<(), Error>)
        ensures
            match r {
                Ok(_) => !(self.spec_attempt() > 0 && self.spec_non_replayable()),
                Err(e) => self.spec_attempt() > 0 && self.spec_non_replayable() && e
                    is NonReplayableBody,
            },
    {
        if self.attempt > 0 && self.non_replayable {
            return Err(Error::NonReplayableBody);
        }
        Ok(())
    }

    /// Decides on a response with `status` (the custom predicate returned `custom_verdict`,
    /// when one is set): `Some(attempt)` when it is retried (back off for `attempt`, then
    /// send the next attempt), `None` when the response is final.
    pub fn on_response(&mut self, status: u16, custom_verdict: bool) -> (r: Option<u32>)
        requires
            old(self).wf(),
        ensures
            final(self).wf(),
            r is Some == event_retries(
                old(self).spec_attempt(),
                old(self).spec_max_attempts(),
                old(self).spec_has_policy(),
                old(self).spec_has_custom(),
                LoopEvent::Response { status, custom_verdict },
            ),
            final(self).spec_max_attempts() == old(self).spec_max_attempts(),
            final(self).spec_has_policy() == old(self).spec_has_policy(),
            final(self).spec_has_custom() == old(self).spec_has_custom(),
            final(self).spec_non_replayable() == old(self).spec_non_replayable(),
            if response_retry_wanted(
                old(self).spec_has_policy(),
                old(self).spec_has_custom(),
                status,
                custom_verdict,
            ) && old(self).spec_attempt() < old(self).spec_max_attempts() {
                r == Some(old(self).spec_attempt()) && final(self).spec_attempt()
                    == old(self).spec_attempt() + 1
            } else {
                r is None && final(self).spec_attempt() == old(self).spec_attempt()
            },
    {
        let wanted = if !self.has_policy {
            false
        } else if self.has_custom {
            custom_verdict
        } else {
            crate::retry::default_should_retry_code(status)
        };
        if wanted && self.attempt < self.max_attempts {
            let a = self.attempt;
            self.attempt = a + 1;
            Some(a)
        } else {
            None
        }
    }

    /// Decides on a transport failure: a cancellation is returned as is; a retryable failure
    /// (transport error, timeout) is retried while the policy allows and becomes
    /// `RetryExhausted` after the last attempt; anything else is returned as is.
    pub fn on_transport_error(&mut self, err: Error) -> (r: TransportErrorAction)
        requires
            old(self).wf(),
        ensures
            final(self).wf(),
            r is Retry == event_retries(
                old(self).spec_attempt(),
                old(self).spec_max_attempts(),
                old(self).spec_has_policy(),
                old(self).spec_has_custom(),
                LoopEvent::Failure(err),
            ),
            final(self).spec_max_attempts() == old(self).spec_max_attempts(),
            final(self).spec_has_policy() == old(self).spec_has_policy(),
            final(self).spec_has_custom() == old(self).spec_has_custom(),
            final(self).spec_non_replayable() == old(self).spec_non_replayable(),
            ({
                let (retry, exhausted) = transport_step(
                    old(self).spec_attempt(),
                    old(self).spec_max_attempts(),
                    old(self).spec_has_policy(),
                    err,
                );
                match retry {
                    Some(a) => r == TransportErrorAction::Retry { attempt: a }
                        && final(self).spec_attempt() == old(self).spec_attempt() + 1,
                    None => final(self).spec_attempt() == old(self).spec_attempt() && if exhausted {
                        r matches TransportErrorAction::Return(
                            Error::RetryExhausted { attempts: n, last: Some(t) },
                        ) && n == (if old(self).spec_attempt() < u32::MAX {
                            old(self).spec_attempt() + 1
                        } else {
                            u32::MAX as int
                        }) && t@ == error_text(err)
                    } else {
                        r == TransportErrorAction::Return(err)
                    },
                }
            }),
    {
        if err.is_cancelled() {
            return TransportErrorAction::Return(err);
        }
        let retryable = transport_retryable(&err);
        if retryable && self.has_policy && self.attempt < self.max_attempts {
            let a = self.attempt;
            self.attempt = a + 1;
            return TransportErrorAction::Retry { attempt: a };
        }
        if retryable && self.has_policy {
            let attempts = self.attempt.saturating_add(1);
            return TransportErrorAction::Return(Error::retry_exhausted(attempts, &err));
        }
        TransportErrorAction::Return(err)
    }
}

// ---------------------------------------------------------------------------------------
// Final responses
// ---------------------------------------------------------------------------------------

/// What happens to a final (not retried) response.
pub enum ResponseOutcome {
    /// A success status: deliver the response.
    Success,
    /// A failure status: run the error hooks with `error`, then deliver the response when
    /// `deliver`, else fail with `error`.
    HttpError { error: Error, deliver: bool },
}

/// The outcome of a final response with `status`; `body` is kept in the error (the whole
/// body of a buffered response, the peeked prefix of a streaming one).
pub fn response_outcome(status: u16, body: Option<Vec<u8>>, throw_on_error: bool) -> (r:
    ResponseOutcome)
    ensures
        is_success_code(status) ==> r is Success,
        !is_success_code(status) ==> match r {
            ResponseOutcome::HttpError { error, deliver } => deliver == !throw_on_error && (
            error matches Error::Http { status: s, status_text: t, message: m, body: b } && s
                == status && t@ == reason_or(status, "request failed"@) && m@ == reason_or(
                status,
                "request failed"@,
            ) && b == body),
            ResponseOutcome::Success => false,
        },
{
    if crate::error::is_success_status(status) {
        return ResponseOutcome::Success;
    }
    let error = Error::http_error_for_status(status, body);
    ResponseOutcome::HttpError { error, deliver: !throw_on_error }
}

/// The body an HTTP error keeps of a streaming response: the peeked prefix, unless empty.
pub fn stream_error_body(peeked: Vec<u8>) -> (r: Option<Vec<u8>>)
    ensures
        peeked@.len() == 0 ==> r is None,
        peeked@.len() > 0 ==> r == Some(peeked),
{
    if peeked.len() == 0 {
        None
    } else {
        Some(peeked)
    }
}

/// How much of a streaming body is peeked for a retry decision or an error: the configured
/// peek size, capped by the response size limit when one is set.
pub fn stream_peek_limit(max_response_bytes: Option<u64>, retry_body_peek_bytes: u64) -> (r: u64)
    ensures
        match max_response_bytes {
            Some(m) => r == if m < retry_body_peek_bytes {
                m
            } else {
                retry_body_peek_bytes
            },
            None => r == retry_body_peek_bytes,
        },
{
    match max_response_bytes {
        Some(m) => if m < retry_body_peek_bytes {
            m
        } else {
            retry_body_peek_bytes
        },
        None => retry_body_peek_bytes,
    }
}

} // verus!
