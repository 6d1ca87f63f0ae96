use vstd::prelude::*;
use vstd::arithmetic::div_mod::lemma_mod_multiples_vanish;
use crate::duration::{Duration, MS_PER_DAY};
use crate::units::TimeOfDay;

verus! {

/// The largest magnitude of a Unix timestamp, in milliseconds, that the
/// library handles (about 142 thousand years).
pub const MAX_INSTANT_MS: i64 = 0x10_0000_0000_0000;

/// A point in time: milliseconds since the Unix epoch, and the local
/// milliseconds since midnight at that point.
#[derive(Clone, Copy, Debug, PartialEq, Eq, Structural, Hash)]
pub struct Moment {
    pub unix_ms: i64,
    pub day_ms: i64,
}

/// Whether a Unix timestamp lies in the library's range.
pub open spec fn in_instants(ms: int) -> bool {
    -MAX_INSTANT_MS <= ms <= MAX_INSTANT_MS
}

impl Moment {
    pub open spec fn wf(self) -> bool {
        in_instants(self.unix_ms as int) && 0 <= self.day_ms < MS_PER_DAY
    }
}

/// Milliseconds from the local time of day `now_day` to the next time
/// the clock shows `target`: later today, or tomorrow if that time has come.
pub open spec fn until(target: int, now_day: int) -> int {
    if now_day < target {
        target - now_day
    } else {
        target + MS_PER_DAY - now_day
    }
}

/// The next moment whose local time of day is `target`; at exactly that
/// time of day, the one a day later.
pub fn get_next_occurrence(target: TimeOfDay, now: Moment) -> (r: Moment)
    requires
        target.wf(),
        now.wf(),
    ensures
        r.unix_ms == now.unix_ms + until(target.spec_ms(), now.day_ms as int),
        r.day_ms == target.spec_ms(),
{
    let t = target.day_ms();
    let ahead = if now.day_ms < t {
        t - now.day_ms
    } else {
        t + MS_PER_DAY - now.day_ms
    };
    Moment { unix_ms: now.unix_ms + ahead, day_ms: t }
}

/// The time from `now` until the next moment whose local time of day is
/// `target`; always more than zero and at most a day.
pub fn duration_until_time(target: TimeOfDay, now: Moment) -> (r: Duration)
    requires
        target.wf(),
        now.wf(),
    ensures
        r.ms == until(target.spec_ms(), now.day_ms as int),
        0 < r.ms <= MS_PER_DAY,
{
    let next = get_next_occurrence(target, now);
    Duration { ms: next.unix_ms - now.unix_ms }
}

/// Nanoseconds in a millisecond.
pub const NANOS_PER_MS: i128 = 1_000_000;

/// `n / d` rounded toward zero, as Rust's integer division does.
pub open spec fn div_toward_zero(n: int, d: int) -> int {
    if n >= 0 {
        n / d
    } else {
        -((-n) / d)
    }
}

/// `x` clamped into the range of instants.
pub open spec fn clamp_instant(x: int) -> int {
    if x > MAX_INSTANT_MS {
        MAX_INSTANT_MS as int
    } else if x < -MAX_INSTANT_MS {
        -MAX_INSTANT_MS
    } else {
        x
    }
}

/// Milliseconds since the epoch of a timestamp in nanoseconds, rounded
/// toward zero and saturated at the bounds of `i64`.
pub fn to_unix_millis(nanos: i128) -> (r: i64)
    ensures
        r == (if div_toward_zero(nanos as int, NANOS_PER_MS as int) > i64::MAX {
            i64::MAX as int
        } else if div_toward_zero(nanos as int, NANOS_PER_MS as int) < i64::MIN {
            i64::MIN as int
        } else {
            div_toward_zero(nanos as int, NANOS_PER_MS as int)
        }),
{
    let q: i128 = if nanos >= 0 {
        nanos / NANOS_PER_MS
    } else if nanos == i128::MIN {
        -((i128::MAX / NANOS_PER_MS))
    } else {
        -((-nanos) / NANOS_PER_MS)
    };
    proof {
        if nanos == i128::MIN {
            assert((-(nanos as int)) / 1_000_000 == (i128::MAX as int) / 1_000_000);
        }
    }
    if q > i64::MAX as i128 {
        i64::MAX
    } else if q < i64::MIN as i128 {
        i64::MIN
    } else {
        q as i64
    }
}

/// The timestamp in nanoseconds of a timestamp in milliseconds.
pub fn from_unix_millis(millis: i64) -> (r: i128)
    ensures
        r == millis * NANOS_PER_MS,
{
    millis as i128 * NANOS_PER_MS
}

/// The moment at a Unix timestamp in nanoseconds, in a time zone
/// `offset_secs` seconds ahead of UTC; the timestamp is held within the
/// range of instants.
pub fn moment_of(nanos: i128, offset_secs: i32) -> (r: Moment)
    requires
        -100_000 < offset_secs < 100_000,
    ensures
        r.wf(),
        r.unix_ms == clamp_instant(div_toward_zero(nanos as int, NANOS_PER_MS as int)),
        r.day_ms == (r.unix_ms + offset_secs * 1000) % (MS_PER_DAY as int),
{
    let ms = to_unix_millis(nanos);
    let unix_ms = if ms > MAX_INSTANT_MS {
        MAX_INSTANT_MS
    } else if ms < -MAX_INSTANT_MS {
        -MAX_INSTANT_MS
    } else {
        ms
    };
    let local = unix_ms + offset_secs as i64 * 1000;
    let shift: i64 = MS_PER_DAY * 0x800_0000;
    let shifted = (local + shift) as u64;
    let day = (shifted % (MS_PER_DAY as u64)) as i64;
    proof {
        lemma_mod_multiples_vanish(0x800_0000, local as int, MS_PER_DAY as int);
        assert(MS_PER_DAY * 0x800_0000 + local == local + shift);
    }
    Moment { unix_ms, day_ms: day }
}

/// Relies on `time::OffsetDateTime::now_local`: the current time
/// as nanoseconds since the epoch, and the local offset from UTC in seconds,
/// which the crate keeps below 26 hours either way.
#[verifier::external_body]
fn local_clock() -> (r: Option<(i128, i32)>)
    ensures
        r matches Some((_, off)) ==> -93_600 < off < 93_600,
{
    match time::OffsetDateTime::now_local() {
        Ok(t) => Some((t.unix_timestamp_nanos(), t.offset().whole_seconds())),
        Err(_) => None,
    }
}

/// Relies on `time::OffsetDateTime::now_utc`: the current time as
/// nanoseconds since the epoch.
#[verifier::external_body]
fn utc_clock() -> (r: i128) {
    time::OffsetDateTime::now_utc().unix_timestamp_nanos()
}

/// The current moment, in the local time zone where it can be found and
/// in UTC otherwise.
pub fn now() -> (r: Moment)
    ensures
        r.wf(),
{
    match local_clock() {
        Some((nanos, offset)) => moment_of(nanos, offset),
        None => moment_of(utc_clock(), 0),
    }
}

} // verus!
