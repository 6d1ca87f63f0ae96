use vstd::prelude::*;

verus! {

/// Milliseconds in one second.
pub const MS_PER_SEC: i64 = 1000;

/// Milliseconds in one minute.
pub const MS_PER_MIN: i64 = 60_000;

/// Milliseconds in one hour.
pub const MS_PER_HOUR: i64 = 3_600_000;

/// Milliseconds in one day.
pub const MS_PER_DAY: i64 = 86_400_000;

/// The largest magnitude, in milliseconds, that a duration handled by the
/// library may have (about 2.28 million years).
pub const MAX_SPAN_MS: i64 = 0x100_0000_0000_0000;

/// A signed span of time with millisecond resolution.
#[derive(Clone, Copy, Debug, PartialEq, Eq, Structural, PartialOrd, Ord, Hash)]
pub struct Duration {
    /// The length of the span in milliseconds; negative spans lie in the past.
    pub ms: i64,
}

/// Whether a millisecond count lies within the library's range.
pub open spec fn in_span(ms: int) -> bool {
    -MAX_SPAN_MS <= ms <= MAX_SPAN_MS
}

/// `x` clamped into the library's range of spans.
pub open spec fn clamp_span(x: int) -> int {
    if x > MAX_SPAN_MS {
        MAX_SPAN_MS as int
    } else if x < -MAX_SPAN_MS {
        -MAX_SPAN_MS
    } else {
        x
    }
}

impl Duration {
    /// The empty span.
    pub fn zero() -> (r: Duration)
        ensures
            r.ms == 0,
    {
        Duration { ms: 0 }
    }

    /// A span of `ms` milliseconds.
    pub fn from_millis(ms: i64) -> (r: Duration)
        ensures
            r.ms == ms,
    {
        Duration { ms }
    }

    /// Whether the span is in the library's range.
    pub open spec fn wf(self) -> bool {
        in_span(self.ms as int)
    }

    /// Whether the span is strictly longer than zero.
    pub fn is_positive(&self) -> (r: bool)
        ensures
            r == (self.ms > 0),
    {
        self.ms > 0
    }
}

/// Adds two in-range spans and clamps the sum into the range.
pub fn add_clamped(a: i64, b: i64) -> (r: i64)
    requires
        in_span(a as int),
        in_span(b as int),
    ensures
        r == clamp_span(a + b),
        in_span(r as int),
{
    let s = a + b;
    if s > MAX_SPAN_MS {
        MAX_SPAN_MS
    } else if s < -MAX_SPAN_MS {
        -MAX_SPAN_MS
    } else {
        s
    }
}

} // verus!
