//! Instants as chrono counts them in UTC: whole seconds since the Unix epoch and the
//! nanoseconds of the second. During a leap second the nanoseconds run from one to two
//! seconds, the seconds staying on the last second of the minute.
use vstd::prelude::*;

verus! {

pub open spec fn nanos_per_sec() -> int {
    1_000_000_000
}

/// The second of its day that an instant falls in (from 0 to 86399).
pub open spec fn second_of_day(secs: int) -> int {
    secs % 86400
}

/// The leap second that chrono counts between `then` and `now` beyond their seconds: one
/// more when `then` stands in a leap second and `now` falls later in its day, one less when
/// `now` stands in a leap second and falls earlier in its day than `then`.
pub open spec fn leap_correction(then: (i64, u32), now: (i64, u32)) -> int {
    if second_of_day(now.0 as int) > second_of_day(then.0 as int) && then.1 >= nanos_per_sec() {
        1
    } else if second_of_day(now.0 as int) < second_of_day(then.0 as int) && now.1 >= nanos_per_sec() {
        -1
    } else {
        0
    }
}

/// The time from `then` to `now` in nanoseconds, as chrono's `signed_duration_since` counts
/// it: the difference of the seconds with the leap correction, plus the difference of the
/// nanoseconds.
pub open spec fn elapsed_nanos(then: (i64, u32), now: (i64, u32)) -> int {
    (now.0 - then.0 + leap_correction(then, now)) * nanos_per_sec() + (now.1 - then.1)
}

/// A bound on the size of any time between two instants, in nanoseconds.
pub open spec fn elapsed_bound() -> int {
    20_000_000_000_000_000_000_000_000_000
}

fn second_of_day_exec(secs: i64) -> (r: i64)
    ensures
        r == second_of_day(secs as int),
{
    let r = secs % 86400;
    if r < 0 {
        r + 86400
    } else {
        r
    }
}

/// The time from `then` to `now` in nanoseconds, as chrono counts it (`elapsed_nanos`).
pub fn elapsed_between(then: (i64, u32), now: (i64, u32)) -> (r: i128)
    ensures
        r == elapsed_nanos(then, now),
        -elapsed_bound() < r < elapsed_bound(),
{
    let now_day = second_of_day_exec(now.0);
    let then_day = second_of_day_exec(then.0);
    let correction: i128 = if now_day > then_day && then.1 >= 1_000_000_000 {
        1
    } else if now_day < then_day && now.1 >= 1_000_000_000 {
        -1
    } else {
        0
    };
    let secs: i128 = now.0 as i128 - then.0 as i128 + correction;
    assert(-19_000_000_000_000_000_000 < secs < 19_000_000_000_000_000_000);
    assert(-19_000_000_000_000_000_000_000_000_000 < secs * 1_000_000_000
        < 19_000_000_000_000_000_000_000_000_000) by (nonlinear_arith)
        requires
            -19_000_000_000_000_000_000 < secs < 19_000_000_000_000_000_000,
    ;
    secs * 1_000_000_000 + (now.1 as i128 - then.1 as i128)
}

} // verus!
