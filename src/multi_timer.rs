use vstd::prelude::*;
use crate::clock::Moment;
use crate::duration::{in_span, Duration};
use crate::error::Error;
use crate::sequence::{interpret_multi, multi_spec, reachable, InputIter};
use crate::single::{interpret_single, interpretation};
use crate::timer::Timer;

verus! {

/// Relies on `uuid::Uuid::new_v4`: a random identifier, taken as its 128 bits.
#[verifier::external_body]
fn fresh_id() -> (r: u128) {
    uuid::Uuid::new_v4().as_u128()
}

/// A chain of countdowns run from one multi-duration expression.
#[derive(Debug)]
pub struct MultiTimer {
    /// The expression that the user entered.
    pub input: String,
    /// The title shown above the timer.
    pub title: String,
    /// Tells timers apart while the program runs.
    pub id: u128,
    /// The countdown of the current literal.
    pub timer: Timer,
    /// The literals still to come.
    pub iter: InputIter,
    /// How many literals have been started.
    pub consumed: u64,
    /// Whether the current countdown's finish has been acted on.
    pub finish_handled: bool,
}

impl MultiTimer {
    pub open spec fn wf(&self) -> bool {
        &&& self.timer.wf()
        &&& self.iter.wf()
        &&& self.consumed == self.iter.taken()
    }

    /// A timer with no input, not started.
    pub fn new() -> (r: MultiTimer)
        ensures
            r.wf(),
            r.input@.len() == 0,
            r.title@.len() == 0,
            r.timer == Timer::new_spec(),
            r.iter@.len() == 0,
            r.consumed == 0,
            !r.finish_handled,
    {
        MultiTimer {
            input: String::new(),
            title: String::new(),
            id: fresh_id(),
            timer: Timer::new(),
            iter: InputIter::empty(),
            consumed: 0,
            finish_handled: false,
        }
    }

    /// Starts the next literal of the sequence, if there is one, and
    /// returns its duration; with none left nothing changes.
    pub fn next(&mut self, now: Moment) -> (r: Option<Duration>)
        requires
            old(self).wf(),
            now.wf(),
        ensures
            final(self).wf(),
            final(self).input == old(self).input,
            final(self).title == old(self).title,
            final(self).id == old(self).id,
            match r {
                Some(d) => {
                    &&& old(self).iter@.len() > 0
                    &&& interpretation(old(self).iter@[0], now.day_ms as int) == Ok::<
                        int,
                        crate::error::Failure,
                    >(d.ms as int)
                    &&& final(self).iter@ == old(self).iter@.drop_first()
                    &&& final(self).consumed == old(self).consumed + 1
                    &&& final(self).timer == (Timer {
                        total: Some(d),
                        start_time: Some(now.unix_ms),
                        last_pause_time: None,
                        acc_paused: Duration { ms: 0 },
                    })
                    &&& !final(self).finish_handled
                },
                None => old(self).iter@.len() == 0 && final(self).timer == old(self).timer
                    && final(self).consumed == old(self).consumed && final(self).iter@ == old(
                    self,
                ).iter@ && final(self).finish_handled == old(self).finish_handled,
            },
    {
        proof {
            self.iter.lemma_rest_reads();
            self.iter.lemma_taken_bound();
        }
        let lit = self.iter.next();
        match lit {
            Some(s) => {
                proof {
                    self.iter.lemma_taken_bound();
                }
                match interpret_single(s.as_str(), now) {
                    Ok(d) => {
                        self.timer.restart(d, now.unix_ms);
                        self.consumed = self.consumed + 1;
                        self.finish_handled = false;
                        Some(d)
                    },
                    Err(_) => {
                        assert(false);
                        None
                    },
                }
            },
            None => None,
        }
    }

    /// The next literal, left in place.
    pub fn peek(&self) -> (r: Option<String>)
        requires
            self.wf(),
        ensures
            match r {
                Some(s) => self.iter@.len() > 0 && s@ == self.iter@[0],
                None => self.iter@.len() == 0,
            },
    {
        self.iter.peek()
    }

    /// Returns to the state before starting, keeping the title and input.
    pub fn reset(&mut self)
        requires
            old(self).wf(),
        ensures
            final(self).wf(),
            final(self).input == old(self).input,
            final(self).title == old(self).title,
            final(self).id == old(self).id,
            final(self).timer == Timer::new_spec(),
            final(self).iter@.len() == 0,
            final(self).consumed == 0,
            !final(self).finish_handled,
    {
        self.timer.reset();
        self.iter = InputIter::empty();
        self.consumed = 0;
        self.finish_handled = false;
    }

    /// Restarts the current countdown with `duration`.
    pub fn restart_current(&mut self, duration: Duration, now: Moment)
        requires
            old(self).wf(),
            now.wf(),
            in_span(duration.ms as int),
        ensures
            final(self).wf(),
            final(self).timer == (Timer {
                total: Some(duration),
                start_time: Some(now.unix_ms),
                last_pause_time: None,
                acc_paused: Duration { ms: 0 },
            }),
            final(self).iter@ == old(self).iter@,
            final(self).consumed == old(self).consumed,
    {
        self.timer.restart(duration, now.unix_ms);
        self.finish_handled = false;
    }

    /// Reads the input as a multi-duration expression and starts its first
    /// literal. On an error the timer is left reset and the error returned.
    pub fn start(&mut self, now: Moment) -> (r: Result<(), Error>)
        requires
            old(self).wf(),
            now.wf(),
        ensures
            final(self).wf(),
            final(self).input == old(self).input,
            final(self).title == old(self).title,
            match r {
                Err(e) => multi_spec(old(self).input@) == Err::<Seq<Seq<char>>, crate::error::Failure>(
                    e@,
                ) && final(self).timer == Timer::new_spec() && final(self).consumed == 0
                    && final(self).iter@.len() == 0,
                Ok(()) => multi_spec(old(self).input@) matches Ok(s) && if reachable(s).len() > 0 {
                    &&& final(self).consumed == 1
                    &&& final(self).iter@ == reachable(s).drop_first()
                    &&& final(self).timer.total matches Some(d) && interpretation(
                        reachable(s)[0],
                        now.day_ms as int,
                    ) == Ok::<int, crate::error::Failure>(d.ms as int)
                    &&& final(self).timer.start_time == Some(now.unix_ms)
                    &&& final(self).timer.last_pause_time is None
                } else {
                    final(self).consumed == 0 && final(self).timer == Timer::new_spec()
                },
            },
    {
        self.reset();
        match interpret_multi(self.input.as_str()) {
            Ok(it) => {
                self.iter = it;
                self.next(now);
                Ok(())
            },
            Err(e) => Err(e),
        }
    }

    /// Pauses the current countdown.
    pub fn pause(&mut self, now: Moment)
        requires
            old(self).wf(),
            now.wf(),
        ensures
            final(self).wf(),
            final(self).timer == crate::timer::pause_spec(old(self).timer, now.unix_ms as int),
            final(self).consumed == old(self).consumed,
    {
        self.timer.pause(now.unix_ms);
    }

    /// Resumes the current countdown.
    pub fn resume(&mut self, now: Moment)
        requires
            old(self).wf(),
            now.wf(),
        ensures
            final(self).wf(),
            final(self).timer == crate::timer::resume_spec(old(self).timer, now.unix_ms as int),
            final(self).consumed == old(self).consumed,
    {
        self.timer.resume(now.unix_ms);
    }

    /// Changes the time left of the current countdown by `delta`.
    pub fn add_duration(&mut self, delta: Duration, now: Moment)
        requires
            old(self).wf(),
            now.wf(),
            in_span(delta.ms as int),
        ensures
            final(self).wf(),
            final(self).timer == crate::timer::add_duration_spec(
                old(self).timer,
                delta.ms as int,
                now.unix_ms as int,
            ),
            final(self).consumed == old(self).consumed,
            final(self).iter@ == old(self).iter@,
            final(self).input == old(self).input,
            final(self).title == old(self).title,
    {
        let was_finished = self.timer.finished(now.unix_ms);
        self.timer.add_duration(delta, now.unix_ms);
        if delta.ms >= 0 && was_finished {
            self.finish_handled = false;
        }
    }

    /// Acts on the current countdown running out: the first time it is
    /// seen finished, the next literal starts. Returns whether that
    /// happened. One link of the chain is taken per call, so a run of
    /// zero-length literals advances one call at a time.
    pub fn tick(&mut self, now: Moment) -> (r: bool)
        requires
            old(self).wf(),
            now.wf(),
        ensures
            final(self).wf(),
            r == (old(self).timer.finished_at(now.unix_ms as int) && !old(self).finish_handled),
            !r ==> final(self).timer == old(self).timer && final(self).consumed == old(self).consumed,
            r && old(self).iter@.len() > 0 ==> {
                &&& final(self).consumed == old(self).consumed + 1
                &&& final(self).iter@ == old(self).iter@.drop_first()
                &&& final(self).timer.total matches Some(d) && interpretation(
                    old(self).iter@[0],
                    now.day_ms as int,
                ) == Ok::<int, crate::error::Failure>(d.ms as int)
                &&& final(self).timer.start_time == Some(now.unix_ms)
                &&& final(self).timer.last_pause_time is None
                &&& !final(self).finish_handled
            },
            r && old(self).iter@.len() == 0 ==> final(self).timer == old(self).timer
                && final(self).finish_handled,
    {
        if !self.finish_handled && self.timer.finished(now.unix_ms) {
            self.finish_handled = true;
            self.next(now);
            true
        } else {
            false
        }
    }

    /// The time counted down on the current countdown.
    pub fn time_elapsed(&self, now: Moment) -> (r: Duration)
        requires
            self.wf(),
            now.wf(),
        ensures
            r.ms == self.timer.elapsed_at(now.unix_ms as int),
    {
        self.timer.get_time_elapsed(now.unix_ms)
    }

    /// The time left on the current countdown.
    pub fn time_remaining(&self, now: Moment) -> (r: Option<Duration>)
        requires
            self.wf(),
            now.wf(),
        ensures
            match r {
                Some(d) => self.timer.remaining_at(now.unix_ms as int) == Some(d.ms as int),
                None => self.timer.remaining_at(now.unix_ms as int) is None,
            },
    {
        self.timer.get_time_remaining(now.unix_ms)
    }

    /// When the current countdown will run out.
    pub fn end_time(&self, now: Moment) -> (r: Option<i64>)
        requires
            self.wf(),
            now.wf(),
        ensures
            match r {
                Some(t) => self.timer.remaining_at(now.unix_ms as int) matches Some(rem) && t
                    == now.unix_ms + rem,
                None => self.timer.remaining_at(now.unix_ms as int) is None,
            },
    {
        self.timer.get_end_time(now.unix_ms)
    }

    /// Whether the current countdown has run out.
    pub fn finished(&self, now: Moment) -> (r: bool)
        requires
            self.wf(),
            now.wf(),
        ensures
            r == self.timer.finished_at(now.unix_ms as int),
    {
        self.timer.finished(now.unix_ms)
    }

    /// Sets the expression to run on the next start.
    pub fn set_input(&mut self, input: String)
        requires
            old(self).wf(),
        ensures
            final(self).wf(),
            final(self).input@ == input@,
            final(self).title == old(self).title,
            final(self).timer == old(self).timer,
            final(self).iter@ == old(self).iter@,
            final(self).consumed == old(self).consumed,
    {
        self.input = input;
    }

    /// Sets the title shown above the timer.
    pub fn set_title(&mut self, title: String)
        requires
            old(self).wf(),
        ensures
            final(self).wf(),
            final(self).title@ == title@,
            final(self).input == old(self).input,
            final(self).timer == old(self).timer,
            final(self).iter@ == old(self).iter@,
            final(self).consumed == old(self).consumed,
    {
        self.title = title;
    }

    /// The identifier of the timer.
    pub fn id(&self) -> (r: u128)
        ensures
            r == self.id,
    {
        self.id
    }
}

} // verus!
