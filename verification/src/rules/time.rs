//! When a rule is due.

use vstd::arithmetic::div_mod::*;
use vstd::prelude::*;

use crate::sizes;

verus! {

/// The unit of timestamps.
#[derive(Debug, Clone, Copy, PartialEq, Eq, Structural)]
pub enum TimestampPrecision {
    Nanoseconds,
    Microseconds,
    Milliseconds,
    Seconds,
}

/// The timestamps in a second.
pub open spec fn units_per_second(precision: TimestampPrecision) -> u64 {
    match precision {
        TimestampPrecision::Seconds => 1,
        TimestampPrecision::Milliseconds => 1000,
        TimestampPrecision::Microseconds => 1000000,
        TimestampPrecision::Nanoseconds => 1000000000,
    }
}

/// A duration in the unit of timestamps, at least one; one that is too long for a timestamp counts
/// as one unit.
pub open spec fn units_in(secs: u64, precision: TimestampPrecision) -> i64 {
    let units = sizes::sat64(secs * units_per_second(precision));
    if units > i64::MAX || units == 0 {
        1
    } else {
        units as i64
    }
}

/// A duration in the unit of timestamps.
pub fn duration_units(secs: u64, precision: TimestampPrecision) -> (units: i64)
    ensures
        units == units_in(secs, precision),
        units >= 1,
{
    let per_second: u64 = match precision {
        TimestampPrecision::Seconds => 1,
        TimestampPrecision::Milliseconds => 1000,
        TimestampPrecision::Microseconds => 1000000,
        TimestampPrecision::Nanoseconds => 1000000000,
    };
    let units = sizes::times64(secs, per_second);
    if units > i64::MAX as u64 || units == 0 {
        1
    } else {
        units as i64
    }
}

/// The last multiple of an interval that is not after a time; without an interval, the time.
pub open spec fn aligned(timestamp: int, interval: int) -> int {
    if interval <= 1 {
        timestamp
    } else {
        timestamp - timestamp % interval
    }
}

/// How far a time is behind the last multiple of an interval.
fn phase_of(timestamp: i64, interval: i64) -> (phase: i64)
    requires
        interval > 1,
    ensures
        phase == timestamp as int % interval as int,
        0 <= phase < interval,
{
    let ghost t = timestamp as int;
    let ghost n = interval as int;
    if timestamp >= 0 {
        timestamp % interval
    } else {
        let mirrored: i64 = -(timestamp + 1);
        let rest: i64 = mirrored % interval;
        let phase: i64 = interval - 1 - rest;
        proof {
            let m = mirrored as int;
            lemma_fundamental_div_mod(m, n);
            let q = m / n;
            assert(t == -(q + 1) * n + (n - 1 - rest)) by (nonlinear_arith)
                requires
                    t == -(m + 1),
                    m == n * q + rest,
            ;
            lemma_fundamental_div_mod_converse(t, n, -(q + 1), n - 1 - rest);
        }
        phase
    }
}

/// Whether the last multiple of an interval that is not after a time can be told as a timestamp.
pub fn can_align(timestamp: i64, interval: i64) -> (answer: bool)
    ensures
        answer == (aligned(timestamp as int, interval as int) >= i64::MIN),
{
    if interval <= 1 {
        return true;
    }
    timestamp >= i64::MIN + phase_of(timestamp, interval)
}

/// The last multiple of an interval that is not after a time.
pub fn align_eval_timestamp(timestamp: i64, interval: i64) -> (start: i64)
    requires
        aligned(timestamp as int, interval as int) >= i64::MIN,
    ensures
        start == aligned(timestamp as int, interval as int),
{
    if interval <= 1 {
        return timestamp;
    }
    timestamp - phase_of(timestamp, interval)
}

/// From time zero on, no aligned time is before time zero.
pub proof fn lemma_aligned_from_zero(timestamp: int, interval: int)
    requires
        timestamp >= 0,
    ensures
        aligned(timestamp, interval) >= 0,
{
    if interval > 1 {
        vstd::arithmetic::div_mod::lemma_mod_decreases(timestamp as nat, interval as nat);
    }
}

/// The aligned time is a multiple of the interval, not after the time, and less than an interval
/// before it.
pub proof fn lemma_aligned(timestamp: int, interval: int)
    requires
        interval > 1,
    ensures
        aligned(timestamp, interval) % interval == 0,
        aligned(timestamp, interval) <= timestamp < aligned(timestamp, interval) + interval,
{
    lemma_fundamental_div_mod(timestamp, interval);
    let q = timestamp / interval;
    let start = aligned(timestamp, interval);
    assert(start == q * interval) by (nonlinear_arith)
        requires
            start == timestamp - timestamp % interval,
            timestamp == interval * q + timestamp % interval,
    ;
    lemma_fundamental_div_mod_converse(start, interval, q, 0);
    lemma_mod_bound(timestamp, interval);
}

/// Aligning an aligned time changes nothing, and two times within one interval are aligned alike.
pub proof fn lemma_aligned_once(timestamp: int, later: int, interval: int)
    requires
        interval > 1,
        aligned(timestamp, interval) <= later < aligned(timestamp, interval) + interval,
    ensures
        aligned(later, interval) == aligned(timestamp, interval),
{
    lemma_aligned(timestamp, interval);
    lemma_aligned(later, interval);
    let start = aligned(timestamp, interval);
    lemma_fundamental_div_mod(start, interval);
    let q = start / interval;
    assert(later == q * interval + (later - start)) by (nonlinear_arith)
        requires
            start == interval * q + start % interval,
            start % interval == 0,
    ;
    lemma_fundamental_div_mod_converse(later, interval, q, later - start);
}

} // verus!
