//! Clock readings and the time budget of a contract refresh.

use std::time::SystemTime;
use vstd::prelude::*;

verus! {

/// `std::time::SystemTime`, a reading of the clock.
#[verifier::external_type_specification]
#[verifier::external_body]
pub struct ExSystemTime(SystemTime);

/// The nanoseconds from the Unix epoch to a clock reading; `None` for a reading
/// before the epoch.
pub uninterp spec fn epoch_nanos(t: SystemTime) -> Option<u128>;

/// The nanoseconds from one clock reading to another; `None` where the second
/// is the earlier one.
pub uninterp spec fn nanos_from_to(start: SystemTime, now: SystemTime) -> Option<u128>;

/// `SystemTime::duration_since` the Unix epoch, as `Duration::as_nanos`: depends
/// on the reading alone; named by [`epoch_nanos`].
#[verifier::external_body]
fn nanos_since_epoch(t: SystemTime) -> (r: Option<u128>)
    ensures
        r == epoch_nanos(t),
{
    t.duration_since(SystemTime::UNIX_EPOCH).ok().map(|d| d.as_nanos())
}

/// `SystemTime::duration_since` an earlier reading, as `Duration::as_nanos`:
/// depends on the two readings alone; named by [`nanos_from_to`].
#[verifier::external_body]
fn nanos_since(start: SystemTime, now: SystemTime) -> (r: Option<u128>)
    ensures
        r == nanos_from_to(start, now),
{
    now.duration_since(start).ok().map(|d| d.as_nanos())
}

/// All calls of one contract refresh together, in milliseconds.
pub const CDGC_REFRESH_BUDGET_MS: i64 = 10_000;

/// A duration in whole units, as a signed number; 0 where there is none.
pub open spec fn whole_units(nanos: Option<u128>, unit: u128) -> i64 {
    match nanos {
        Some(n) => #[verifier::truncate] ((n / unit) as i64),
        None => 0,
    }
}

/// Whole seconds of a duration; 0 where there is none.
pub fn seconds_of(nanos: Option<u128>) -> (r: i64)
    ensures
        r == whole_units(nanos, 1_000_000_000),
{
    match nanos {
        Some(n) => #[verifier::truncate] ((n / 1_000_000_000) as i64),
        None => 0,
    }
}

/// Whole milliseconds of a duration; 0 where there is none.
pub fn milliseconds_of(nanos: Option<u128>) -> (r: i64)
    ensures
        r == whole_units(nanos, 1_000_000),
{
    match nanos {
        Some(n) => #[verifier::truncate] ((n / 1_000_000) as i64),
        None => 0,
    }
}

/// Unix seconds of a clock reading; 0 before the epoch.
pub fn now_secs(now: SystemTime) -> (r: i64)
    ensures
        r == whole_units(epoch_nanos(now), 1_000_000_000),
{
    seconds_of(nanos_since_epoch(now))
}

/// Milliseconds from `start` to `now`; 0 where the clock went back.
pub fn elapsed_ms(start: SystemTime, now: SystemTime) -> (r: i64)
    ensures
        r == whole_units(nanos_from_to(start, now), 1_000_000),
{
    milliseconds_of(nanos_since(start, now))
}

/// The nanoseconds from the Unix epoch to a clock reading.
pub fn unix_nanos(now: SystemTime) -> (r: Option<u128>)
    ensures
        r == epoch_nanos(now),
{
    nanos_since_epoch(now)
}

/// The timeout of the next call of a refresh, in milliseconds: the time per
/// call, but no more than is left of the budget and at least one; `None` when
/// nothing is left.
pub open spec fn call_timeout(per_call_ms: i64, elapsed: i64) -> Option<u64> {
    let remaining = CDGC_REFRESH_BUDGET_MS - elapsed;
    if remaining <= 0 {
        None
    } else if per_call_ms < 1 {
        Some(1)
    } else if per_call_ms <= remaining {
        Some(per_call_ms as u64)
    } else {
        Some(remaining as u64)
    }
}

/// The timeout of the next call of a refresh, in milliseconds.
pub fn next_call_timeout(per_call_ms: i64, elapsed: i64) -> (r: Option<u64>)
    requires
        CDGC_REFRESH_BUDGET_MS - elapsed <= i64::MAX,
    ensures
        r == call_timeout(per_call_ms, elapsed),
{
    let remaining: i64 = CDGC_REFRESH_BUDGET_MS - elapsed;
    if remaining <= 0 {
        return None;
    }
    let mut ms: i64 = per_call_ms;
    if ms > remaining {
        ms = remaining;
    }
    if ms < 1 {
        ms = 1;
    }
    Some(ms as u64)
}

/// A call is given at least one millisecond, never runs past the budget, and is
/// given none exactly when the budget is used up.
pub proof fn timeout_within_budget(per_call_ms: i64, elapsed: i64)
    ensures
        call_timeout(per_call_ms, elapsed) is None <==> elapsed >= CDGC_REFRESH_BUDGET_MS,
        call_timeout(per_call_ms, elapsed) matches Some(ms) ==> 1 <= ms && elapsed + ms
            <= CDGC_REFRESH_BUDGET_MS,
{
}

} // verus!
