use vstd::prelude::*;
use crate::clock::{in_instants, MAX_INSTANT_MS};
use crate::duration::{in_span, Duration, MAX_SPAN_MS};

verus! {

/// The largest magnitude, in milliseconds, of a timer's total duration.
pub const MAX_TOTAL_MS: i64 = 0x400_0000_0000_0000;

/// Whether a total duration lies in the timer's range.
pub open spec fn in_total(ms: int) -> bool {
    -MAX_TOTAL_MS <= ms <= MAX_TOTAL_MS
}

/// `x` clamped into the range of total durations.
pub open spec fn clamp_total(x: int) -> int {
    if x > MAX_TOTAL_MS {
        MAX_TOTAL_MS as int
    } else if x < -MAX_TOTAL_MS {
        -MAX_TOTAL_MS
    } else {
        x
    }
}

/// `x` clamped into the range of spans.
pub open spec fn clamp_acc(x: int) -> int {
    if x > MAX_SPAN_MS {
        MAX_SPAN_MS as int
    } else if x < -MAX_SPAN_MS {
        -MAX_SPAN_MS
    } else {
        x
    }
}

/// A countdown timer. Times are Unix timestamps in milliseconds, handed in
/// by the caller.
#[derive(Clone, Copy, Debug, PartialEq, Eq, Structural)]
pub struct Timer {
    /// The total duration of the current countdown, once it is set.
    pub total: Option<Duration>,
    /// When the timer started.
    pub start_time: Option<i64>,
    /// When the timer was paused; set exactly when it is paused.
    pub last_pause_time: Option<i64>,
    /// The time spent paused, not counting the current pause.
    pub acc_paused: Duration,
}

impl Timer {
    pub open spec fn wf(self) -> bool {
        &&& (self.last_pause_time.is_some() ==> self.start_time.is_some())
        &&& (self.total matches Some(d) ==> in_total(d.ms as int))
        &&& (self.start_time matches Some(s) ==> in_instants(s as int))
        &&& (self.last_pause_time matches Some(p) ==> in_instants(p as int))
        &&& in_span(self.acc_paused.ms as int)
    }

    pub open spec fn is_started(self) -> bool {
        self.start_time.is_some()
    }

    pub open spec fn is_paused(self) -> bool {
        self.start_time.is_some() && self.last_pause_time.is_some()
    }

    /// The time counted down at `now`: from the start to the pause (or to
    /// `now` when running), less the time spent paused.
    pub open spec fn elapsed_at(self, now: int) -> int {
        match self.start_time {
            None => 0,
            Some(s) => {
                let end = match self.last_pause_time {
                    Some(p) => p as int,
                    None => now,
                };
                (end - s) - self.acc_paused.ms
            },
        }
    }

    /// The time left at `now`; `None` before the timer starts.
    pub open spec fn remaining_at(self, now: int) -> Option<int> {
        match self.total {
            Some(d) if self.start_time.is_some() => Some(d.ms - self.elapsed_at(now)),
            _ => None,
        }
    }

    /// Whether the timer has run out at `now`.
    pub open spec fn finished_at(self, now: int) -> bool {
        self.remaining_at(now) matches Some(r) && r <= 0
    }

    /// A timer that has not started.
    pub fn new() -> (r: Timer)
        ensures
            r.wf(),
            r == Timer::new_spec(),
    {
        Timer {
            total: None,
            start_time: None,
            last_pause_time: None,
            acc_paused: Duration { ms: 0 },
        }
    }

    /// Whether the timer has started.
    pub fn started(&self) -> (r: bool)
        ensures
            r == self.is_started(),
    {
        self.start_time.is_some()
    }

    /// Whether the timer has started and is paused.
    pub fn paused(&self) -> (r: bool)
        ensures
            r == self.is_paused(),
    {
        self.start_time.is_some() && self.last_pause_time.is_some()
    }

    /// Whether the timer has started and is not paused.
    pub fn running(&self) -> (r: bool)
        ensures
            r == (self.is_started() && !self.is_paused()),
    {
        self.start_time.is_some() && self.last_pause_time.is_none()
    }

    /// Starts counting down `duration` from `now`, dropping any pause.
    pub fn start(&mut self, duration: Duration, now: i64)
        requires
            in_total(duration.ms as int),
            in_instants(now as int),
        ensures
            final(self).wf(),
            *final(self) == (Timer {
                total: Some(duration),
                start_time: Some(now),
                last_pause_time: None,
                acc_paused: Duration { ms: 0 },
            }),
    {
        *self = Timer {
            total: Some(duration),
            start_time: Some(now),
            last_pause_time: None,
            acc_paused: Duration { ms: 0 },
        };
    }

    /// Starts afresh with `duration`, in one step.
    pub fn restart(&mut self, duration: Duration, now: i64)
        requires
            in_total(duration.ms as int),
            in_instants(now as int),
        ensures
            final(self).wf(),
            *final(self) == (Timer {
                total: Some(duration),
                start_time: Some(now),
                last_pause_time: None,
                acc_paused: Duration { ms: 0 },
            }),
    {
        self.start(duration, now);
    }

    /// Returns to the state before starting.
    pub fn reset(&mut self)
        ensures
            final(self).wf(),
            *final(self) == Timer::new_spec(),
    {
        *self = Timer::new();
    }

    pub open spec fn new_spec() -> Timer {
        Timer {
            total: None,
            start_time: None,
            last_pause_time: None,
            acc_paused: Duration { ms: 0 },
        }
    }

    /// Pauses at `now`; nothing happens if the timer is paused or has not started.
    pub fn pause(&mut self, now: i64)
        requires
            old(self).wf(),
            in_instants(now as int),
        ensures
            final(self).wf(),
            *final(self) == pause_spec(*old(self), now as int),
    {
        if self.start_time.is_some() && self.last_pause_time.is_none() {
            self.last_pause_time = Some(now);
        }
    }

    /// Resumes at `now`, adding the pause to the time spent paused (held
    /// within the range of spans); nothing happens if the timer is not paused.
    pub fn resume(&mut self, now: i64)
        requires
            old(self).wf(),
            in_instants(now as int),
        ensures
            final(self).wf(),
            *final(self) == resume_spec(*old(self), now as int),
    {
        if self.start_time.is_none() {
            return;
        }
        match self.last_pause_time {
            Some(p) => {
                let s = self.acc_paused.ms + (now - p);
                let acc = if s > MAX_SPAN_MS {
                    MAX_SPAN_MS
                } else if s < -MAX_SPAN_MS {
                    -MAX_SPAN_MS
                } else {
                    s
                };
                self.acc_paused = Duration { ms: acc };
                self.last_pause_time = None;
            },
            None => {},
        }
    }

    /// The time counted down at `now`; zero before the timer starts.
    pub fn get_time_elapsed(&self, now: i64) -> (r: Duration)
        requires
            self.wf(),
            in_instants(now as int),
        ensures
            r.ms == self.elapsed_at(now as int),
    {
        match self.start_time {
            None => Duration { ms: 0 },
            Some(s) => {
                let end = match self.last_pause_time {
                    Some(p) => p,
                    None => now,
                };
                Duration { ms: (end - s) - self.acc_paused.ms }
            },
        }
    }

    /// The time left at `now`, negative once it has run out; `None` before
    /// the timer starts.
    pub fn get_time_remaining(&self, now: i64) -> (r: Option<Duration>)
        requires
            self.wf(),
            in_instants(now as int),
        ensures
            match r {
                Some(d) => self.remaining_at(now as int) == Some(d.ms as int),
                None => self.remaining_at(now as int) is None,
            },
    {
        if self.start_time.is_none() {
            return None;
        }
        match self.total {
            Some(d) => {
                let e = self.get_time_elapsed(now);
                Some(Duration { ms: d.ms - e.ms })
            },
            None => None,
        }
    }

    /// When the timer will run out, counted from `now` as if it ran on;
    /// `None` before it starts.
    pub fn get_end_time(&self, now: i64) -> (r: Option<i64>)
        requires
            self.wf(),
            in_instants(now as int),
        ensures
            match r {
                Some(t) => self.remaining_at(now as int) matches Some(rem) && t == now + rem,
                None => self.remaining_at(now as int) is None,
            },
    {
        match self.get_time_remaining(now) {
            Some(d) => Some(now + d.ms),
            None => None,
        }
    }

    /// Whether the timer has run out at `now`.
    pub fn finished(&self, now: i64) -> (r: bool)
        requires
            self.wf(),
            in_instants(now as int),
        ensures
            r == self.finished_at(now as int),
    {
        match self.get_time_remaining(now) {
            Some(d) => d.ms <= 0,
            None => false,
        }
    }

    /// Changes the time left by `delta` at `now`.
    ///
    /// Before the start nothing happens. Taking time off a finished timer
    /// does nothing; taking off at least what is left makes exactly nothing
    /// left and resumes the timer, so that it counts overtime. Adding time
    /// to a finished timer starts it afresh with `delta`. Otherwise `delta`
    /// is added to the total, held within the range of totals.
    pub fn add_duration(&mut self, delta: Duration, now: i64)
        requires
            old(self).wf(),
            in_span(delta.ms as int),
            in_instants(now as int),
        ensures
            final(self).wf(),
            *final(self) == add_duration_spec(*old(self), delta.ms as int, now as int),
    {
        if self.start_time.is_none() {
            return;
        }
        let total = match self.total {
            Some(d) => d,
            None => {
                return;
            },
        };
        let fin = self.finished(now);
        if delta.ms < 0 {
            if fin {
                return;
            }
            let rem = self.get_time_remaining(now).unwrap();
            if rem.ms <= -delta.ms {
                self.resume(now);
                let counted = self.get_time_elapsed(now);
                self.total = Some(counted);
            } else {
                self.total = Some(Duration { ms: total.ms + delta.ms });
            }
        } else {
            if fin {
                self.restart(delta, now);
            } else {
                let s = total.ms + delta.ms;
                let t = if s > MAX_TOTAL_MS {
                    MAX_TOTAL_MS
                } else {
                    s
                };
                self.total = Some(Duration { ms: t });
            }
        }
    }
}

/// The timer after `add_duration(delta)` at `now`.
pub open spec fn add_duration_spec(t: Timer, delta: int, now: int) -> Timer {
    if !t.is_started() || t.total is None {
        t
    } else if delta < 0 {
        if t.finished_at(now) {
            t
        } else {
            let rem = t.remaining_at(now)->Some_0;
            if rem <= -delta {
                let resumed = resume_spec(t, now);
                Timer { total: Some(Duration { ms: resumed.elapsed_at(now) as i64 }), ..resumed }
            } else {
                Timer { total: Some(Duration { ms: (t.total->Some_0.ms + delta) as i64 }), ..t }
            }
        }
    } else if t.finished_at(now) {
        Timer {
            total: Some(Duration { ms: delta as i64 }),
            start_time: Some(now as i64),
            last_pause_time: None,
            acc_paused: Duration { ms: 0 },
        }
    } else {
        Timer {
            total: Some(Duration { ms: clamp_total(t.total->Some_0.ms + delta) as i64 }),
            ..t
        }
    }
}

/// The timer after `pause()` at `now`.
pub open spec fn pause_spec(t: Timer, now: int) -> Timer {
    if t.is_started() && !t.is_paused() {
        Timer { last_pause_time: Some(now as i64), ..t }
    } else {
        t
    }
}

/// The timer after `resume()` at `now`.
pub open spec fn resume_spec(t: Timer, now: int) -> Timer {
    match t.last_pause_time {
        Some(p) if t.is_paused() => Timer {
            last_pause_time: None,
            acc_paused: Duration { ms: clamp_acc(t.acc_paused.ms + (now - p)) as i64 },
            ..t
        },
        _ => t,
    }
}

} // verus!
