//! The clock, and how long to wait before another try.

use vstd::prelude::*;

verus! {

/// A point of time of std.
#[verifier::external_type_specification]
#[verifier::external_body]
pub struct ExSystemTime(std::time::SystemTime);

/// The error of std for a point of time before another.
#[verifier::external_type_specification]
#[verifier::external_body]
pub struct ExSystemTimeError(std::time::SystemTimeError);

/// `SystemTime::now` of std. What the clock says is open.
pub assume_specification[ std::time::SystemTime::now ]() -> std::time::SystemTime;

/// `SystemTime::duration_since` of std. What the clock says is open.
pub assume_specification[ std::time::SystemTime::duration_since ](
    instant: &std::time::SystemTime,
    earlier: std::time::SystemTime,
) -> Result<std::time::Duration, std::time::SystemTimeError>;

/// The whole seconds of a span of time.
pub uninterp spec fn span_secs(span: std::time::Duration) -> u64;

/// The part of a span of time below a second, in nanoseconds.
pub uninterp spec fn span_nanos(span: std::time::Duration) -> u32;

/// `Duration::subsec_nanos` of std: the part below a second, in nanoseconds.
pub assume_specification[ std::time::Duration::subsec_nanos ](span: &std::time::Duration) -> (nanos: u32)
    ensures
        nanos == span_nanos(*span),
        nanos < 1_000_000_000,
;

/// `Duration::as_secs` of std: the whole seconds.
pub assume_specification[ std::time::Duration::as_secs ](span: &std::time::Duration) -> (secs: u64)
    ensures
        secs == span_secs(*span),
;

/// `Duration::from_millis` of std: the span of that many milliseconds.
pub assume_specification[ std::time::Duration::from_millis ](millis: u64) -> (span: std::time::Duration)
    ensures
        span_secs(span) == millis / 1000,
        span_nanos(span) == millis % 1000 * 1_000_000,
;

/// `UNIX_EPOCH` of std.
#[verifier::external_body]
fn unix_epoch() -> std::time::SystemTime {
    std::time::UNIX_EPOCH
}

/// What the clock says in seconds: the whole seconds of the time since 1970, and 0
/// where it stands before.
pub open spec fn clock_secs(since: Result<std::time::Duration, std::time::SystemTimeError>) -> u64 {
    match since {
        Ok(span) => span_secs(span),
        Err(_) => 0,
    }
}

/// The nanoseconds of the clock, and 0 where it stands before 1970.
pub open spec fn clock_nanos(since: Result<std::time::Duration, std::time::SystemTimeError>) -> u32 {
    match since {
        Ok(span) => span_nanos(span),
        Err(_) => 0,
    }
}

/// The seconds of a reading of the clock.
pub fn seconds_of(since: Result<std::time::Duration, std::time::SystemTimeError>) -> (r: u64)
    ensures
        r == clock_secs(since),
{
    match since {
        Ok(span) => span.as_secs(),
        Err(_) => 0,
    }
}

/// The nanoseconds of a reading of the clock.
pub fn nanos_of(since: Result<std::time::Duration, std::time::SystemTimeError>) -> (r: u32)
    ensures
        r == clock_nanos(since),
        r < 1_000_000_000,
{
    match since {
        Ok(span) => span.subsec_nanos(),
        Err(_) => 0,
    }
}

/// The seconds since 1970; 0 for a clock that stands before.
pub fn now_secs() -> (r: u64)
    ensures
        exists|since: Result<std::time::Duration, std::time::SystemTimeError>| r == #[trigger] clock_secs(since),
{
    seconds_of(std::time::SystemTime::now().duration_since(unix_epoch()))
}

/// Two to the power of `attempt`, at most 64.
pub open spec fn growth(attempt: u32) -> int {
    if attempt >= 6 {
        64
    } else {
        vstd::arithmetic::power2::pow2(attempt as nat) as int
    }
}

/// The backoff before jitter: `base_ms` doubled with each attempt, up to six times.
pub open spec fn doubled(base_ms: u64, attempt: u32) -> int {
    let grown = base_ms * growth(attempt);
    if grown > u64::MAX {
        u64::MAX as int
    } else {
        grown
    }
}

/// The backoff with jitter of up to a quarter, at most two minutes.
pub open spec fn jittered(base_ms: u64, attempt: u32, nanos: u32) -> int {
    let grown = doubled(base_ms, attempt);
    let total = grown + nanos as int % (grown / 4 + 1);
    if total > 120_000 {
        120_000
    } else {
        total
    }
}

/// How long to wait, in milliseconds, before another try, with the jitter taken from
/// `nanos`.
pub fn backoff_with_jitter(base_ms: u64, attempt: u32, nanos: u32) -> (r: u64)
    requires
        doubled(base_ms, attempt) + nanos as int % (doubled(base_ms, attempt) / 4 + 1) <= u64::MAX,
    ensures
        r == jittered(base_ms, attempt, nanos),
{
    let steps: u32 = if attempt < 6 {
        attempt
    } else {
        6
    };
    let factor: u64 = 1u64 << steps;
    proof {
        assert(factor == growth(attempt)) by {
            vstd::arithmetic::power2::lemma2_to64();
            assert(steps == 0 || steps == 1 || steps == 2 || steps == 3 || steps == 4 || steps == 5 || steps == 6);
            vstd::bits::lemma_u64_shl_is_mul(1u64, steps as u64);
        }
    }
    let grown = match base_ms.checked_mul(factor) {
        Some(v) => v,
        None => u64::MAX,
    };
    let jitter = nanos as u64 % (grown / 4 + 1);
    let total = grown + jitter;
    if total > 120_000 {
        120_000
    } else {
        total
    }
}

/// The span is one of so many milliseconds.
pub open spec fn lasts_millis(span: std::time::Duration, millis: int) -> bool {
    span_secs(span) == millis / 1000 && span_nanos(span) == millis % 1000 * 1_000_000
}

/// How long to wait before another try. The jitter comes from the clock.
pub fn backoff_delay(base_ms: u64, attempt: u32) -> (r: std::time::Duration)
    requires
        doubled(base_ms, attempt) + 999_999_999 <= u64::MAX,
    ensures
        exists|nanos: u32|
            nanos < 1_000_000_000 && lasts_millis(r, #[trigger] jittered(base_ms, attempt, nanos)),
{
    let nanos = nanos_of(std::time::SystemTime::now().duration_since(unix_epoch()));
    proof {
        let m = doubled(base_ms, attempt) / 4 + 1;
        assert(nanos as int % m <= nanos) by (nonlinear_arith)
            requires
                m > 0,
                nanos >= 0,
        ;
    }
    std::time::Duration::from_millis(backoff_with_jitter(base_ms, attempt, nanos))
}

/// The wait is at least the doubled base and at most a quarter more, but never over
/// two minutes.
pub proof fn law_backoff_is_bounded(base_ms: u64, attempt: u32, nanos: u32)
    ensures
        jittered(base_ms, attempt, nanos) <= 120_000,
        doubled(base_ms, attempt) <= 120_000 ==> doubled(base_ms, attempt) <= jittered(base_ms, attempt, nanos),
        doubled(base_ms, attempt) >= 120_000 ==> jittered(base_ms, attempt, nanos) == 120_000,
        jittered(base_ms, attempt, nanos) <= doubled(base_ms, attempt) + doubled(base_ms, attempt) / 4,
{
    lemma_growth(attempt, attempt);
    let grown = doubled(base_ms, attempt);
    assert(0 <= base_ms * growth(attempt)) by (nonlinear_arith)
        requires
            0 <= base_ms,
            1 <= growth(attempt),
    ;
    assert(0 <= nanos as int % (grown / 4 + 1) < grown / 4 + 1);
}

/// The wait before jitter doubles with each attempt up to the sixth, as far as 64 bits
/// hold it, and never shrinks with a later attempt.
pub proof fn law_backoff_grows(base_ms: u64, attempt: u32, later: u32)
    requires
        attempt <= later,
    ensures
        doubled(base_ms, attempt) <= doubled(base_ms, later),
        attempt < 6 && doubled(base_ms, attempt) * 2 <= u64::MAX ==> doubled(base_ms, (attempt + 1) as u32)
            == doubled(base_ms, attempt) * 2,
        doubled(base_ms, 0) == base_ms,
{
    lemma_growth(attempt, later);
    lemma_growth(0, 0);
    assert(base_ms * growth(attempt) <= base_ms * growth(later)) by (nonlinear_arith)
        requires
            0 <= base_ms,
            growth(attempt) <= growth(later),
    ;
    if attempt < 6 {
        vstd::arithmetic::power2::lemma2_to64();
        vstd::arithmetic::power2::lemma_pow2_unfold((attempt + 1) as nat);
        assert(base_ms * (growth(attempt) * 2) == base_ms * growth(attempt) * 2) by (nonlinear_arith);
        assert(growth((attempt + 1) as u32) == growth(attempt) * 2);
    }
}

proof fn lemma_growth(attempt: u32, later: u32)
    requires
        attempt <= later,
    ensures
        1 <= growth(attempt) <= growth(later) <= 64,
        growth(0) == 1,
{
    vstd::arithmetic::power2::lemma2_to64();
    assert(attempt < 6 ==> attempt == 0 || attempt == 1 || attempt == 2 || attempt == 3 || attempt == 4 || attempt == 5);
    assert(later < 6 ==> later == 0 || later == 1 || later == 2 || later == 3 || later == 4 || later == 5);
}

} // verus!
