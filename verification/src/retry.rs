//! Retry policies for transport and HTTP failures.
//!
//! The `attempts` value of a policy is the maximum number of **retries after the initial
//! request**: `RetryPolicy::count(2)` performs up to three HTTP calls. The custom retry
//! predicate is a type parameter `P`; the application layer calls it and hands its verdict
//! to [`RetryPolicy::should_retry_response`].

use vstd::prelude::*;
use std::time::Duration;
use crate::text::{trim, trim_bounds};

verus! {

// ---------------------------------------------------------------------------------------
// Durations
// ---------------------------------------------------------------------------------------

/// The length of a `Duration` in nanoseconds (`Duration::as_nanos`).
pub uninterp spec fn duration_nanos(d: Duration) -> nat;

/// The nanoseconds of `Duration::MAX`.
pub open spec fn max_duration_nanos() -> nat {
    18_446_744_073_709_551_615nat * 1_000_000_000nat + 999_999_999nat
}

/// The length of `d` in nanoseconds (`Duration::as_nanos`).
///
/// Contract: the named length, which is at most that of `Duration::MAX`.
#[verifier::external_body]
pub(crate) fn nanos_of(d: &Duration) -> (n: u128)
    ensures
        n == duration_nanos(*d),
        n <= max_duration_nanos(),
{
    d.as_nanos()
}

/// `Duration::new(secs, nanos)` for `nanos` below one second (no carry, no panic).
///
/// Contract: the duration is `secs` seconds and `nanos` nanoseconds long.
#[verifier::external_body]
fn duration_new(secs: u64, nanos: u32) -> (d: Duration)
    requires
        nanos < 1_000_000_000,
    ensures
        duration_nanos(d) == secs * 1_000_000_000 + nanos,
{
    Duration::new(secs, nanos)
}

/// `Duration` is `Copy`: its clone is the same duration.
pub assume_specification[<Duration as Clone>::clone](d: &Duration) -> (r: Duration)
    ensures
        r == *d,
;

/// The duration of `n` nanoseconds.
pub fn duration_from_nanos(n: u128) -> (d: Duration)
    requires
        n <= max_duration_nanos(),
    ensures
        duration_nanos(d) == n,
{
    let secs = n / 1_000_000_000;
    let sub = n % 1_000_000_000;
    assert(secs <= u64::MAX) by (nonlinear_arith)
        requires
            n <= 18_446_744_073_709_551_615nat * 1_000_000_000nat + 999_999_999nat,
            secs == n / 1_000_000_000,
    ;
    assert(secs * 1_000_000_000 + sub == n) by (nonlinear_arith)
        requires
            secs == n / 1_000_000_000,
            sub == n % 1_000_000_000,
    ;
    duration_new(secs as u64, sub as u32)
}

/// `2^n` saturated at `u32::MAX` (`2u32.saturating_pow(n)`).
pub open spec fn pow2_sat(n: nat) -> nat
    decreases n,
{
    if n == 0 {
        1
    } else {
        let p = pow2_sat((n - 1) as nat);
        if 2 * p > u32::MAX {
            u32::MAX as nat
        } else {
            2 * p
        }
    }
}

proof fn lemma_pow2_sat_bounds(n: nat)
    ensures
        1 <= pow2_sat(n) <= u32::MAX,
        n >= 32 ==> pow2_sat(n) == u32::MAX,
    decreases n,
{
    if n > 0 {
        lemma_pow2_sat_bounds((n - 1) as nat);
        if n >= 32 {
            if n > 32 {
                assert(pow2_sat((n - 1) as nat) == u32::MAX);
            } else {
                lemma_pow2_31();
            }
        }
    }
}

proof fn lemma_pow2_31()
    ensures
        pow2_sat(31) == 0x8000_0000,
{
    reveal_with_fuel(pow2_sat, 32);
}

/// `2u32.saturating_pow(n)`.
fn pow2_saturating(n: u32) -> (r: u32)
    ensures
        r == pow2_sat(n as nat),
{
    let mut p: u32 = 1;
    let mut i: u32 = 0;
    while i < n && i < 32
        invariant
            i <= n,
            i <= 32,
            p == pow2_sat(i as nat),
        decreases 32 - i,
    {
        proof {
            lemma_pow2_sat_bounds(i as nat);
        }
        if p > u32::MAX / 2 {
            p = u32::MAX;
        } else {
            p = p * 2;
        }
        i = i + 1;
    }
    proof {
        lemma_pow2_sat_bounds(i as nat);
        lemma_pow2_sat_bounds(n as nat);
    }
    p
}

// ---------------------------------------------------------------------------------------
// Policies
// ---------------------------------------------------------------------------------------

/// A policy type parameter for policies without a custom retry predicate.
#[derive(Clone, Copy, Debug, Default)]
pub struct NoPredicate;

/// Retry policy configuration.
///
/// `attempts` is the maximum number of retries after the initial request. `P` is the type
/// of the custom retry predicate, when one is set.
#[derive(Clone)]
pub enum RetryPolicy<P> {
    /// Shorthand for linear retry with `attempts` retries and a 1 second delay.
    Count { attempts: u32, should_retry: Option<P> },
    /// Fixed delay between retries.
    Linear { attempts: u32, delay: Duration, should_retry: Option<P>, jitter: bool },
    /// Exponential backoff capped at `max_delay`.
    Exponential {
        attempts: u32,
        base_delay: Duration,
        max_delay: Duration,
        should_retry: Option<P>,
        jitter: bool,
    },
}

/// The default HTTP statuses that are retried: 408, 429, 502, 503, 504.
pub open spec fn default_retry_status(code: u16) -> bool {
    code == 408 || code == 429 || code == 502 || code == 503 || code == 504
}

/// The numeric code of a status (`StatusCode::as_u16`).
pub uninterp spec fn status_code_value(s: http::StatusCode) -> u16;

#[verifier::external_type_specification]
#[verifier::external_body]
pub struct ExStatusCode(http::StatusCode);

/// The code of `s` (`StatusCode::as_u16`).
///
/// Contract: the named code, which lies in `100..=999` (the range `http` accepts).
#[verifier::external_body]
pub(crate) fn status_as_u16(s: &http::StatusCode) -> (r: u16)
    ensures
        r == status_code_value(*s),
        100 <= r <= 999,
{
    s.as_u16()
}

/// Whether an HTTP status code is retried by default (408, 429, 502, 503, 504).
pub fn default_should_retry_code(code: u16) -> (b: bool)
    ensures
        b == default_retry_status(code),
        b == (code == 408 || code == 429 || code == 502 || code == 503 || code == 504),
{
    code == 408 || code == 429 || code == 502 || code == 503 || code == 504
}

/// Default HTTP status codes that trigger a retry when no custom predicate is set.
pub fn default_should_retry(status: http::StatusCode) -> (b: bool)
    ensures
        b == default_retry_status(status_code_value(status)),
{
    default_should_retry_code(status_as_u16(&status))
}

/// The delay of attempt `attempt` before jitter, in nanoseconds.
pub open spec fn spec_delay_nanos<P>(policy: RetryPolicy<P>, attempt: u32) -> nat {
    match policy {
        RetryPolicy::Count { .. } => 1_000_000_000,
        RetryPolicy::Linear { delay, .. } => duration_nanos(delay),
        RetryPolicy::Exponential { base_delay, max_delay, .. } => {
            let prod = duration_nanos(base_delay) * pow2_sat(attempt as nat);
            let exp = if prod > max_duration_nanos() {
                max_duration_nanos()
            } else {
                prod
            };
            if exp <= duration_nanos(max_delay) {
                exp
            } else {
                duration_nanos(max_delay)
            }
        },
    }
}

/// Whether the policy randomizes its own backoff. `Count` never does (see
/// [`RetryPolicy::with_jitter`]).
pub open spec fn spec_uses_jitter<P>(policy: RetryPolicy<P>) -> bool {
    match policy {
        RetryPolicy::Count { .. } => false,
        RetryPolicy::Linear { jitter, .. } => jitter,
        RetryPolicy::Exponential { jitter, .. } => jitter,
    }
}

/// Whether a custom predicate is set.
pub open spec fn spec_has_custom<P>(policy: RetryPolicy<P>) -> bool {
    match policy {
        RetryPolicy::Count { should_retry, .. } => should_retry is Some,
        RetryPolicy::Linear { should_retry, .. } => should_retry is Some,
        RetryPolicy::Exponential { should_retry, .. } => should_retry is Some,
    }
}

/// The retry limit of a policy.
pub open spec fn spec_max_attempts<P>(policy: RetryPolicy<P>) -> u32 {
    match policy {
        RetryPolicy::Count { attempts, .. } => attempts,
        RetryPolicy::Linear { attempts, .. } => attempts,
        RetryPolicy::Exponential { attempts, .. } => attempts,
    }
}

/// The jitter window of a delay of `nanos` nanoseconds: the delay is capped at
/// `u64::MAX` nanoseconds, and the jittered delay is `half + r` for `r < span`.
pub open spec fn jitter_half(nanos: nat) -> nat {
    let capped = if nanos > u64::MAX {
        u64::MAX as nat
    } else {
        nanos
    };
    capped / 2
}

pub open spec fn jitter_span(nanos: nat) -> nat {
    let capped = if nanos > u64::MAX {
        u64::MAX as nat
    } else {
        nanos
    };
    let s = capped - capped / 2;
    if s < 1 {
        1
    } else {
        s as nat
    }
}

/// A uniformly random number below `span` (`fastrand::u64(..span)`).
///
/// Contract: the number is below `span`; nothing else is promised (it is random).
#[verifier::external_body]
fn random_below(span: u64) -> (r: u64)
    requires
        span > 0,
    ensures
        r < span,
{
    fastrand::u64(..span)
}

/// The jittered delay for the random draw `draw`: `half + draw` nanoseconds of the
/// (capped) delay; a zero delay is kept.
pub fn jittered(delay: Duration, draw: u64) -> (d: Duration)
    requires
        draw < jitter_span(duration_nanos(delay)),
    ensures
        duration_nanos(delay) == 0 ==> d == delay,
        duration_nanos(delay) > 0 ==> duration_nanos(d) == jitter_half(duration_nanos(delay))
            + draw,
{
    let total = nanos_of(&delay);
    let nanos: u64 = if total > u64::MAX as u128 {
        u64::MAX
    } else {
        total as u64
    };
    if nanos == 0 {
        return delay;
    }
    let half = nanos / 2;
    duration_from_nanos((half + draw) as u128)
}

/// Randomizes a delay into `[delay / 2, delay]` (for delays up to `u64::MAX` nanoseconds).
pub fn apply_jitter(delay: Duration) -> (d: Duration)
    ensures
        duration_nanos(delay) == 0 ==> d == delay,
        duration_nanos(delay) > 0 ==> jitter_half(duration_nanos(delay)) <= duration_nanos(d)
            < jitter_half(duration_nanos(delay)) + jitter_span(duration_nanos(delay)),
{
    let total = nanos_of(&delay);
    let nanos: u64 = if total > u64::MAX as u128 {
        u64::MAX
    } else {
        total as u64
    };
    let half = nanos / 2;
    let s = nanos - half;
    let span = if s < 1 {
        1
    } else {
        s
    };
    let draw = random_below(span);
    jittered(delay, draw)
}

impl<P> RetryPolicy<P> {
    /// Shorthand: `attempts` retries with a fixed 1 second delay and the default statuses.
    /// `Count` never applies jitter.
    pub fn count(attempts: u32) -> (r: Self)
        ensures
            r matches RetryPolicy::Count { attempts: a, should_retry: None } && a == attempts,
    {
        RetryPolicy::Count { attempts, should_retry: None }
    }

    /// Linear backoff with a fixed `delay` between retries (no jitter).
    pub fn linear(attempts: u32, delay: Duration) -> (r: Self)
        ensures
            r matches RetryPolicy::Linear { attempts: a, delay: d, should_retry: None, jitter: false }
                && a == attempts && d == delay,
    {
        RetryPolicy::Linear { attempts, delay, should_retry: None, jitter: false }
    }

    /// Exponential backoff from `base_delay` up to `max_delay` (jitter enabled).
    pub fn exponential(attempts: u32, base_delay: Duration, max_delay: Duration) -> (r: Self)
        ensures
            r matches RetryPolicy::Exponential {
                attempts: a,
                base_delay: b,
                max_delay: m,
                should_retry: None,
                jitter: true,
            } && a == attempts && b == base_delay && m == max_delay,
    {
        RetryPolicy::Exponential { attempts, base_delay, max_delay, should_retry: None, jitter: true }
    }

    /// Enables randomized backoff jitter on linear or exponential policies; no effect on
    /// `Count`.
    pub fn with_jitter(self, jitter: bool) -> (r: Self)
        ensures
            match self {
                RetryPolicy::Count { .. } => r == self,
                RetryPolicy::Linear { attempts, delay, should_retry, .. } => r
                    == RetryPolicy::Linear { attempts, delay, should_retry, jitter },
                RetryPolicy::Exponential { attempts, base_delay, max_delay, should_retry, .. } => r
                    == RetryPolicy::Exponential {
                    attempts,
                    base_delay,
                    max_delay,
                    should_retry,
                    jitter,
                },
            },
    {
        match self {
            RetryPolicy::Count { attempts, should_retry } => RetryPolicy::Count {
                attempts,
                should_retry,
            },
            RetryPolicy::Linear { attempts, delay, should_retry, .. } => RetryPolicy::Linear {
                attempts,
                delay,
                should_retry,
                jitter,
            },
            RetryPolicy::Exponential { attempts, base_delay, max_delay, should_retry, .. } => {
                RetryPolicy::Exponential { attempts, base_delay, max_delay, should_retry, jitter }
            },
        }
    }

    /// Overrides the default retry predicate (408, 429, 502, 503, 504); the kind, limits
    /// and jitter stay.
    pub fn with_should_retry(self, f: P) -> (r: Self)
        ensures
            match self {
                RetryPolicy::Count { attempts, .. } => r == RetryPolicy::Count {
                    attempts,
                    should_retry: Some(f),
                },
                RetryPolicy::Linear { attempts, delay, jitter, .. } => r == RetryPolicy::Linear {
                    attempts,
                    delay,
                    should_retry: Some(f),
                    jitter,
                },
                RetryPolicy::Exponential { attempts, base_delay, max_delay, jitter, .. } => r
                    == RetryPolicy::Exponential {
                    attempts,
                    base_delay,
                    max_delay,
                    should_retry: Some(f),
                    jitter,
                },
            },
    {
        match self {
            RetryPolicy::Count { attempts, .. } => RetryPolicy::Count {
                attempts,
                should_retry: Some(f),
            },
            RetryPolicy::Linear { attempts, delay, jitter, .. } => RetryPolicy::Linear {
                attempts,
                delay,
                should_retry: Some(f),
                jitter,
            },
            RetryPolicy::Exponential { attempts, base_delay, max_delay, jitter, .. } => {
                RetryPolicy::Exponential {
                    attempts,
                    base_delay,
                    max_delay,
                    should_retry: Some(f),
                    jitter,
                }
            },
        }
    }

    /// Returns the maximum number of retries after the initial request.
    pub fn max_attempts(&self) -> (n: u32)
        ensures
            n == spec_max_attempts(*self),
    {
        match self {
            RetryPolicy::Count { attempts, .. } => *attempts,
            RetryPolicy::Linear { attempts, .. } => *attempts,
            RetryPolicy::Exponential { attempts, .. } => *attempts,
        }
    }

    /// The backoff before retry number `attempt + 1`, before jitter: 1 s for `Count`, the
    /// fixed delay for `Linear`, and `base_delay * 2^attempt` (saturating) capped at
    /// `max_delay` for `Exponential`.
    pub fn delay_before_attempt(&self, attempt: u32) -> (d: Duration)
        ensures
            duration_nanos(d) == spec_delay_nanos(*self, attempt),
    {
        match self {
            RetryPolicy::Count { .. } => duration_new(1, 0),
            RetryPolicy::Linear { delay, .. } => {
                let n = nanos_of(delay);
                duration_from_nanos(n)
            },
            RetryPolicy::Exponential { base_delay, max_delay, .. } => {
                let base = nanos_of(base_delay);
                let cap = nanos_of(max_delay);
                let factor = pow2_saturating(attempt);
                assert(base * factor <= u128::MAX) by (nonlinear_arith)
                    requires
                        base <= 18_446_744_073_709_551_615nat * 1_000_000_000nat + 999_999_999nat,
                        factor <= u32::MAX,
                ;
                let prod = base * (factor as u128);
                let max_n: u128 = 18_446_744_073_709_551_615u128 * 1_000_000_000u128
                    + 999_999_999u128;
                let exp = if prod > max_n {
                    max_n
                } else {
                    prod
                };
                let chosen = if exp <= cap {
                    exp
                } else {
                    cap
                };
                duration_from_nanos(chosen)
            },
        }
    }

    /// Whether the policy randomizes its own backoff (linear or exponential with jitter on).
    pub fn uses_jitter(&self) -> (b: bool)
        ensures
            b == spec_uses_jitter(*self),
    {
        match self {
            RetryPolicy::Count { .. } => false,
            RetryPolicy::Linear { jitter, .. } => *jitter,
            RetryPolicy::Exponential { jitter, .. } => *jitter,
        }
    }

    /// Returns `true` when a custom retry predicate is configured.
    pub fn has_custom_should_retry(&self) -> (b: bool)
        ensures
            b == spec_has_custom(*self),
    {
        match self {
            RetryPolicy::Count { should_retry, .. } => should_retry.is_some(),
            RetryPolicy::Linear { should_retry, .. } => should_retry.is_some(),
            RetryPolicy::Exponential { should_retry, .. } => should_retry.is_some(),
        }
    }

    /// Whether a response (or a transport failure) is retried: transport failures always;
    /// otherwise the custom predicate's verdict when one is set, else the default statuses.
    pub fn should_retry_response(&self, status: u16, custom_verdict: bool, transport_failed: bool) -> (b:
        bool)
        ensures
            b == (transport_failed || (if spec_has_custom(*self) {
                custom_verdict
            } else {
                default_retry_status(status)
            })),
    {
        if transport_failed {
            return true;
        }
        if self.has_custom_should_retry() {
            return custom_verdict;
        }
        default_should_retry_code(status)
    }

    /// The sleep before the next attempt, given the server's `Retry-After` delay and a random
    /// draw: the `Retry-After` delay when present (never reduced by jitter), else the policy
    /// backoff, jittered to `half + draw` nanoseconds when the policy uses jitter.
    pub fn delay_for(&self, attempt: u32, retry_after: Option<Duration>, draw: u64) -> (d: Duration)
        requires
            retry_after is None && spec_uses_jitter(*self) ==> draw < jitter_span(
                spec_delay_nanos(*self, attempt),
            ),
        ensures
            match retry_after {
                Some(r) => d == r,
                None => if spec_uses_jitter(*self) && spec_delay_nanos(*self, attempt) > 0 {
                    duration_nanos(d) == jitter_half(spec_delay_nanos(*self, attempt)) + draw
                } else {
                    duration_nanos(d) == spec_delay_nanos(*self, attempt)
                },
            },
    {
        if let Some(r) = retry_after {
            return r;
        }
        let base = self.delay_before_attempt(attempt);
        if self.uses_jitter() {
            jittered(base, draw)
        } else {
            base
        }
    }

    /// Computes the sleep duration using the policy backoff, an optional `Retry-After`
    /// header and jitter. A server-provided `Retry-After` is honored exactly; jitter only
    /// applies to the policy's own backoff and keeps it within `[delay / 2, delay]`.
    pub fn delay_after_response(&self, attempt: u32, headers: &http::HeaderMap) -> (d: Duration)
        ensures
            retry_after_parses(*headers) ==> retry_after_of(*headers, d),
            ({
                let base = spec_delay_nanos(*self, attempt);
                ||| retry_after_parses(*headers)
                ||| (!spec_uses_jitter(*self) || base == 0) && duration_nanos(d) == base
                ||| spec_uses_jitter(*self) && base > 0 && jitter_half(base) <= duration_nanos(d)
                    < jitter_half(base) + jitter_span(base)
            }),
    {
        let retry_after = parse_retry_after(headers);
        if retry_after.is_some() {
            return self.delay_for(attempt, retry_after, 0);
        }
        let base = self.delay_before_attempt(attempt);
        if self.uses_jitter() {
            apply_jitter(base)
        } else {
            base
        }
    }
}

// ---------------------------------------------------------------------------------------
// Retry-After
// ---------------------------------------------------------------------------------------

#[verifier::external_type_specification]
#[verifier::external_body]
#[verifier::reject_recursive_types(T)]
pub struct ExHeaderMap<T>(http::HeaderMap<T>);

#[verifier::external_type_specification]
#[verifier::external_body]
pub struct ExHeaderValue(http::HeaderValue);

/// What a `HeaderMap` holds: for each (lowercase) header name, its values in insertion
/// order.
pub uninterp spec fn header_values(h: http::HeaderMap) -> Map<Seq<u8>, Seq<Seq<u8>>>;

/// `retry-after`, as `http` stores the name.
pub open spec fn retry_after_name() -> Seq<u8> {
    seq![114u8, 101, 116, 114, 121, 45, 97, 102, 116, 101, 114]
}

/// The first `Retry-After` value of a header map, if any.
pub open spec fn header_retry_after(h: http::HeaderMap) -> Option<Seq<u8>> {
    if header_values(h).contains_key(retry_after_name()) {
        Some(header_values(h)[retry_after_name()][0])
    } else {
        None
    }
}

/// The first `Retry-After` value (`HeaderMap::get(RETRY_AFTER)`, as bytes).
///
/// Contract: present exactly when the map holds the name, and then its first value.
#[verifier::external_body]
fn retry_after_bytes(h: &http::HeaderMap) -> (r: Option<Vec<u8>>)
    ensures
        r is Some <==> header_values(*h).contains_key(retry_after_name()),
        r matches Some(v) ==> v@ == header_values(*h)[retry_after_name()][0],
{
    h.get(http::header::RETRY_AFTER).map(|v| v.as_bytes().to_vec())
}

/// Seconds since the Unix epoch of an HTTP date (`httpdate::parse_http_date`), or `None`
/// when the text is not an HTTP date.
pub uninterp spec fn http_date_secs(s: Seq<char>) -> Option<u64>;

/// Parses an HTTP date (`httpdate::parse_http_date`) into seconds since the Unix epoch.
///
/// Contract: the named result. Dates that `httpdate` accepts lie in the years 1970 to
/// 9999, so they are never before the epoch.
#[verifier::external_body]
fn parse_http_date_secs(s: &str) -> (r: Option<u64>)
    ensures
        r == http_date_secs(s@),
{
    httpdate::parse_http_date(s).ok().map(
        |t| t.duration_since(std::time::UNIX_EPOCH).map(|d| d.as_secs()).unwrap_or(0),
    )
}

/// The current time as (before the epoch?, nanoseconds from the epoch) (`SystemTime::now`).
///
/// Nothing is promised of the value: it is the clock.
#[verifier::external_body]
fn clock_now() -> (r: (bool, u128)) {
    match std::time::SystemTime::now().duration_since(std::time::UNIX_EPOCH) {
        Ok(d) => (false, d.as_nanos()),
        Err(e) => (true, e.duration().as_nanos()),
    }
}

/// The value of a decimal digit.
pub open spec fn digit_value(c: char) -> nat {
    ((c as u32) - ('0' as u32)) as nat
}

pub open spec fn is_digit(c: char) -> bool {
    '0' <= c && c <= '9'
}

/// The number that the decimal digits `d` spell.
pub open spec fn decimal_value(d: Seq<char>) -> nat
    decreases d.len(),
{
    if d.len() == 0 {
        0
    } else {
        decimal_value(d.drop_last()) * 10 + digit_value(d.last())
    }
}

/// The digits of a number text: the text without one leading `+`.
pub open spec fn unsigned_digits(s: Seq<char>) -> Seq<char> {
    if s.len() > 0 && s[0] == '+' {
        s.drop_first()
    } else {
        s
    }
}

/// Whether every character is an ASCII digit.
pub open spec fn all_digits(d: Seq<char>) -> bool {
    forall|i: int| 0 <= i < d.len() ==> is_digit(#[trigger] d[i])
}

/// `str::parse::<u64>`: an optional `+`, then one or more ASCII digits whose value fits.
pub open spec fn parse_u64_spec(s: Seq<char>) -> Option<u64> {
    let d = unsigned_digits(s);
    if d.len() == 0 || !all_digits(d) {
        None
    } else if decimal_value(d) > u64::MAX {
        None
    } else {
        Some(decimal_value(d) as u64)
    }
}

pub proof fn lemma_decimal_monotone(d: Seq<char>, k: int)
    requires
        0 <= k <= d.len(),
        forall|i: int| 0 <= i < d.len() ==> is_digit(#[trigger] d[i]),
    ensures
        decimal_value(d.take(k)) <= decimal_value(d),
    decreases d.len() - k,
{
    if k < d.len() {
        lemma_decimal_monotone(d, k + 1);
        assert(d.take(k + 1).drop_last() =~= d.take(k));
        assert(is_digit(d[k]));
    } else {
        assert(d.take(k) =~= d);
    }
}

/// Parses `cs[lo..hi]` as `str::parse::<u64>` does.
fn parse_u64_range(cs: &[char], lo: usize, hi: usize) -> (r: Option<u64>)
    requires
        lo <= hi <= cs@.len(),
    ensures
        r == parse_u64_spec(cs@.subrange(lo as int, hi as int)),
{
    let ghost s = cs@.subrange(lo as int, hi as int);
    let mut a = lo;
    if a < hi && cs[a] == '+' {
        a = a + 1;
    }
    let ghost d = cs@.subrange(a as int, hi as int);
    assert(d =~= unsigned_digits(s));
    if a == hi {
        return None;
    }
    let mut k = a;
    while k < hi
        invariant
            lo <= a <= k <= hi <= cs@.len(),
            d == cs@.subrange(a as int, hi as int),
            s == cs@.subrange(lo as int, hi as int),
            d == unsigned_digits(s),
            forall|i: int| a <= i < k ==> is_digit(#[trigger] cs@[i]),
        decreases hi - k,
    {
        if !('0' <= cs[k] && cs[k] <= '9') {
            assert(!is_digit(d[k - a]));
            assert(!all_digits(d));
            return None;
        }
        k = k + 1;
    }
    assert forall|i: int| 0 <= i < d.len() implies is_digit(#[trigger] d[i]) by {
        assert(d[i] == cs@[a + i]);
    }
    let mut v: u64 = 0;
    let mut k = a;
    assert(d.take(0) =~= Seq::<char>::empty());
    while k < hi
        invariant
            lo <= a <= k <= hi <= cs@.len(),
            d == cs@.subrange(a as int, hi as int),
            s == cs@.subrange(lo as int, hi as int),
            d == unsigned_digits(s),
            forall|i: int| 0 <= i < d.len() ==> is_digit(#[trigger] d[i]),
            v == decimal_value(d.take(k - a)),
        decreases hi - k,
    {
        let c = cs[k];
        assert(c == d[k - a]);
        assert(is_digit(c));
        let dig = ((c as u32) - ('0' as u32)) as u64;
        assert(d.take(k - a + 1).drop_last() =~= d.take(k - a));
        assert(d.take(k - a + 1).last() == c);
        assert(decimal_value(d.take(k - a + 1)) == v * 10 + dig);
        if v > (u64::MAX - dig) / 10 {
            proof {
                lemma_decimal_monotone(d, k - a + 1);
            }
            assert(decimal_value(d) > u64::MAX);
            return None;
        }
        v = v * 10 + dig;
        k = k + 1;
    }
    assert(d.take(d.len() as int) =~= d);
    Some(v)
}

/// Whether every byte is visible ASCII or a tab (`HeaderValue::to_str`'s check).
pub open spec fn visible_ascii(bytes: Seq<u8>) -> bool {
    forall|i: int| 0 <= i < bytes.len() ==> ((32 <= #[trigger] bytes[i] && bytes[i] < 127)
        || bytes[i] == 9)
}

/// The characters of ASCII bytes.
pub open spec fn ascii_chars(bytes: Seq<u8>) -> Seq<char> {
    bytes.map_values(|b: u8| b as char)
}

/// The delay that a `Retry-After` value gives at clock reading `now` (signed nanoseconds
/// from the epoch): `None` unless the value is visible ASCII and, trimmed, either a
/// `u64` of seconds or an HTTP date; a date in the past gives zero.
pub open spec fn retry_after_delay_nanos(value: Seq<u8>, now: int) -> Option<nat> {
    if !visible_ascii(value) {
        None
    } else {
        let t = trim(ascii_chars(value));
        match parse_u64_spec(t) {
            Some(secs) => Some((secs * 1_000_000_000) as nat),
            None => match http_date_secs(t) {
                Some(when) => {
                    let diff = when * 1_000_000_000 - now;
                    Some(
                        if diff <= 0 {
                            0nat
                        } else if diff > max_duration_nanos() {
                            max_duration_nanos()
                        } else {
                            diff as nat
                        },
                    )
                },
                None => None,
            },
        }
    }
}

/// The delay of a `Retry-After` value at clock reading `now`.
pub fn parse_retry_after_value(value: &[u8], now: (bool, u128)) -> (r: Option<Duration>)
    ensures
        ({
            let now_i: int = if now.0 {
                -(now.1 as int)
            } else {
                now.1 as int
            };
            match retry_after_delay_nanos(value@, now_i) {
                None => r is None,
                Some(n) => r matches Some(d) && duration_nanos(d) == n,
            }
        }),
{
    let mut k: usize = 0;
    while k < value.len()
        invariant
            k <= value@.len(),
            forall|i: int| 0 <= i < k ==> ((32 <= #[trigger] value@[i] && value@[i] < 127)
                || value@[i] == 9),
        decreases value@.len() - k,
    {
        let b = value[k];
        if !((32 <= b && b < 127) || b == 9) {
            return None;
        }
        k = k + 1;
    }
    let mut cs: Vec<char> = Vec::new();
    let mut k: usize = 0;
    while k < value.len()
        invariant
            k <= value@.len(),
            cs@ == ascii_chars(value@.take(k as int)),
        decreases value@.len() - k,
    {
        cs.push(value[k] as char);
        assert(ascii_chars(value@.take(k + 1)) =~= ascii_chars(value@.take(k as int)).push(
            value@[k as int] as char,
        ));
        k = k + 1;
    }
    assert(value@.take(value@.len() as int) =~= value@);
    let (a, b) = trim_bounds(&cs, 0, cs.len());
    assert(cs@.subrange(0, cs@.len() as int) =~= cs@);
    if let Some(secs) = parse_u64_range(&cs, a, b) {
        let n = (secs as u128) * 1_000_000_000u128;
        return Some(duration_from_nanos(n));
    }
    let mut text = String::new();
    crate::text::append_range(&mut text, &cs, a, b);
    assert(Seq::<char>::empty() + cs@.subrange(a as int, b as int) =~= cs@.subrange(
        a as int,
        b as int,
    ));
    match parse_http_date_secs(text.as_str()) {
        Some(when) => {
            let when_n = (when as u128) * 1_000_000_000u128;
            let (before, n) = now;
            let max_n: u128 = 18_446_744_073_709_551_615u128 * 1_000_000_000u128 + 999_999_999u128;
            let diff: u128 = if before {
                if when_n > max_n || n > max_n - when_n {
                    max_n
                } else {
                    when_n + n
                }
            } else if when_n <= n {
                0
            } else {
                let d = when_n - n;
                if d > max_n {
                    max_n
                } else {
                    d
                }
            };
            Some(duration_from_nanos(diff))
        },
        None => None,
    }
}

/// Whether the first `Retry-After` value of `h` is a delay (seconds or an HTTP date); this
/// does not depend on the clock.
pub open spec fn retry_after_parses(h: http::HeaderMap) -> bool {
    header_retry_after(h) matches Some(v) && retry_after_delay_nanos(v, 0) is Some
}

/// Whether `d` is the delay that the `Retry-After` header of `h` gives at some clock
/// reading (the clock is not known to the contract).
pub open spec fn retry_after_of(h: http::HeaderMap, d: Duration) -> bool {
    exists|now: int|
        #![trigger retry_after_delay_nanos(header_retry_after(h)->0, now)]
        retry_after_delay_nanos(header_retry_after(h)->0, now) == Some(duration_nanos(d))
}

/// Parses `Retry-After` as a delay: integer seconds or an HTTP date (RFC 7231); a date in
/// the past yields zero.
pub fn parse_retry_after(headers: &http::HeaderMap) -> (r: Option<Duration>)
    ensures
        header_retry_after(*headers) is None ==> r is None,
        r matches Some(d) ==> header_retry_after(*headers) is Some && retry_after_of(*headers, d),
        header_retry_after(*headers) matches Some(v) ==> (r is None <==> retry_after_delay_nanos(
            v,
            0,
        ) is None),
{
    let value = match retry_after_bytes(headers) {
        Some(v) => v,
        None => return None,
    };
    let now = clock_now();
    let r = parse_retry_after_value(value.as_slice(), now);
    proof {
        let now_i: int = if now.0 {
            -(now.1 as int)
        } else {
            now.1 as int
        };
        let v = value@;
        assert(retry_after_delay_nanos(v, now_i) is None <==> retry_after_delay_nanos(v, 0) is None);
        if let Some(d) = r {
            assert(retry_after_delay_nanos(v, now_i) == Some(duration_nanos(d)));
        }
    }
    r
}

} // verus!
