use vstd::prelude::*;

use crate::clock::{elapsed_between, elapsed_bound, elapsed_nanos};
use crate::score::{Bettors, Scores};
use crate::text::{decimal_text, i64_text, owned};

verus! {

/// A scoreboard kept in memory.
#[derive(Debug)]
pub struct TotalCache {
    pub bettor_struct: Vec<Bettors>,
    pub score_struct: Vec<Scores>,
    pub last_refresh: String,
}

/// A kept scoreboard, if any, with the time it was kept (RFC 3339).
#[derive(Debug)]
pub struct Cache {
    pub data: Option<TotalCache>,
    pub cached_time: String,
}

/// How long a kept scoreboard stays fresh, in nanoseconds (five minutes).
pub open spec fn cache_duration_nanos() -> int {
    300_000_000_000
}

/// Integer division rounded toward zero, as Rust's `/` divides.
pub open spec fn div_toward_zero(a: int, b: int) -> int {
    if a >= 0 {
        a / b
    } else {
        -((-a) / b)
    }
}

/// The remainder of `div_toward_zero`, as Rust's `%` gives it.
pub open spec fn rem_toward_zero(a: int, b: int) -> int {
    a - b * div_toward_zero(a, b)
}

/// How long ago a kept scoreboard was refreshed, as `<minutes>m, <seconds>s`, from the
/// nanoseconds elapsed: whole seconds rounded toward zero (`TimeDelta::num_seconds`), then
/// minutes and the seconds left over, as Rust's `/` and `%` give them.
pub open spec fn elapsed_text(elapsed_nanos: int) -> Seq<char> {
    let secs = div_toward_zero(elapsed_nanos, 1_000_000_000);
    decimal_text(div_toward_zero(secs, 60)) + "m, "@ + decimal_text(rem_toward_zero(secs, 60)) + "s"@
}

/// What a freshness check answers for a scoreboard kept `elapsed_nanos` nanoseconds ago: the
/// kept scoreboard with its refresh time shown as the time since it was kept, while it is
/// fresh (less than five minutes old) and there is one; `Cache expired` otherwise.
pub open spec fn fresh_outcome(cache: Cache, elapsed_nanos: int, r: Result<TotalCache, String>) -> bool {
    match r {
        Ok(t) => elapsed_nanos < cache_duration_nanos() && (cache.data matches Some(d)
            && t.bettor_struct == d.bettor_struct && t.score_struct == d.score_struct
            && t.last_refresh@ == elapsed_text(elapsed_nanos)),
        Err(m) => !(elapsed_nanos < cache_duration_nanos() && cache.data is Some) && m@
            == "Cache expired"@,
    }
}

/// The kept scoreboard with its refresh time shown as the time since it was kept, while it
/// is fresh (less than five minutes old) and there is one; `Cache expired` otherwise. The
/// time since it was kept is given in nanoseconds.
pub fn fresh_cache(cache: Cache, elapsed_nanos: i128) -> (r: Result<TotalCache, String>)
    requires
        -elapsed_bound() < elapsed_nanos < elapsed_bound(),
    ensures
        fresh_outcome(cache, elapsed_nanos as int, r),
{
    if elapsed_nanos < 300_000_000_000 {
        match cache.data {
            Some(d) => {
                let ns = elapsed_nanos;
                let secs: i128 = if ns >= 0 {
                    ns / 1_000_000_000
                } else {
                    -((-ns) / 1_000_000_000)
                };
                let minutes: i128 = if secs >= 0 {
                    secs / 60
                } else {
                    -((-secs) / 60)
                };
                let seconds: i128 = secs - 60 * minutes;
                proof {
                    assert(secs == div_toward_zero(elapsed_nanos as int, 1_000_000_000));
                    assert(minutes == div_toward_zero(secs as int, 60));
                    assert(seconds == rem_toward_zero(secs as int, 60));
                    assert(-0x8000_0000_0000_0000 <= minutes < 0x8000_0000_0000_0000) by (nonlinear_arith)
                        requires
                            -20_000_000_000_000_000_000_000_000_000 < ns < 20_000_000_000_000_000_000_000_000_000,
                            secs == div_toward_zero(ns as int, 1_000_000_000),
                            minutes == div_toward_zero(secs as int, 60),
                    ;
                    assert(-60 < seconds < 60) by (nonlinear_arith)
                        requires
                            seconds == rem_toward_zero(secs as int, 60),
                    ;
                }
                let text = i64_text(minutes as i64).concat("m, ").concat(
                    i64_text(seconds as i64).as_str(),
                ).concat("s");
                Ok(
                    TotalCache {
                        bettor_struct: d.bettor_struct,
                        score_struct: d.score_struct,
                        last_refresh: text,
                    },
                )
            },
            None => Err(owned("Cache expired")),
        }
    } else {
        Err(owned("Cache expired"))
    }
}

/// The instant that an RFC 3339 text names, in UTC, as `chrono::DateTime::parse_from_rfc3339`
/// reads it: `timestamp` (seconds since the Unix epoch) and `timestamp_subsec_nanos`; `None`
/// where the text is no RFC 3339 date and time.
pub uninterp spec fn rfc3339_instant(text: Seq<char>) -> Option<(i64, u32)>;

/// `chrono::DateTime::parse_from_rfc3339` followed by `timestamp` and
/// `timestamp_subsec_nanos`. The result depends on the text alone and is named
/// `rfc3339_instant`; the rules of RFC 3339 are not written out here.
#[verifier::external_body]
fn parse_rfc3339(text: &str) -> (r: Option<(i64, u32)>)
    ensures
        r == rfc3339_instant(text@),
{
    chrono::DateTime::parse_from_rfc3339(text).ok().map(|t| (t.timestamp(), t.timestamp_subsec_nanos()))
}

/// The message for a kept time that is no RFC 3339 date and time.
pub open spec fn invalid_cached_time_message() -> Seq<char> {
    "Invalid cached time"@
}

/// The kept scoreboard as `fresh_cache` gives it, at the instant `now` (seconds since the
/// Unix epoch and nanoseconds of the second, in UTC): the time elapsed is the time from the
/// instant that the kept time names to `now`, as chrono counts it. An error when the kept
/// time is no RFC 3339 date and time.
pub fn fresh_cache_at(cache: Cache, now: (i64, u32)) -> (r: Result<TotalCache, String>)
    ensures
        rfc3339_instant(cache.cached_time@) is None ==> (r matches Err(m) && m@
            == invalid_cached_time_message()),
        rfc3339_instant(cache.cached_time@) matches Some(t) ==> fresh_outcome(
            cache,
            elapsed_nanos(t, now),
            r,
        ),
{
    match parse_rfc3339(cache.cached_time.as_str()) {
        Some(t) => {
            let elapsed = elapsed_between(t, now);
            fresh_cache(cache, elapsed)
        },
        None => {
            proof {
                reveal_strlit("Invalid cached time");
            }
            Err(owned("Invalid cached time"))
        },
    }
}

} // verus!
