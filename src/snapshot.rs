use vstd::prelude::*;
use crate::clock::{in_instants, Moment, MAX_INSTANT_MS};
use crate::duration::{Duration, MAX_SPAN_MS};
use crate::multi_timer::MultiTimer;
use crate::sequence::{multi_spec, reachable};
use crate::timer::{Timer, MAX_TOTAL_MS};
use crate::timer_list::{is_fresh, TimerList};

verus! {

/// A stored timer: enough to rebuild it exactly.
#[derive(Clone, Debug, PartialEq, Eq)]
pub struct TimerRecord {
    /// The total duration of the current countdown (ms), once started.
    pub duration: Option<u64>,
    /// When the countdown started, as a Unix timestamp (ms).
    pub start: Option<i64>,
    /// When it was paused, as a Unix timestamp (ms), while paused.
    pub last_pause: Option<i64>,
    /// The time spent paused before the current pause (ms).
    pub acc_pause_duration: u64,
    /// The expression that the user entered.
    pub duration_input: String,
    /// The title of the timer.
    pub title: String,
    /// How many literals of the expression had been started.
    pub consumed: u64,
}

/// A stored timer, with its texts as characters.
pub struct RecordView {
    pub duration: Option<u64>,
    pub start: Option<i64>,
    pub last_pause: Option<i64>,
    pub acc_pause_duration: u64,
    pub duration_input: Seq<char>,
    pub title: Seq<char>,
    pub consumed: u64,
}

impl View for TimerRecord {
    type V = RecordView;

    open spec fn view(&self) -> RecordView {
        RecordView {
            duration: self.duration,
            start: self.start,
            last_pause: self.last_pause,
            acc_pause_duration: self.acc_pause_duration,
            duration_input: self.duration_input@,
            title: self.title@,
            consumed: self.consumed,
        }
    }
}

/// A millisecond count as an unsigned one, negative counts becoming zero.
pub open spec fn sat_u64(ms: int) -> u64 {
    if ms < 0 {
        0
    } else {
        ms as u64
    }
}

/// The record that stores a timer.
pub open spec fn record_of(m: MultiTimer) -> RecordView {
    RecordView {
        duration: match m.timer.total {
            Some(d) => Some(sat_u64(d.ms as int)),
            None => None,
        },
        start: m.timer.start_time,
        last_pause: m.timer.last_pause_time,
        acc_pause_duration: sat_u64(m.timer.acc_paused.ms as int),
        duration_input: m.input@,
        title: m.title@,
        consumed: m.consumed,
    }
}

/// Whether replaying the stored count of advances on the stored input
/// reaches that count.
pub open spec fn replay_reaches(r: RecordView) -> bool {
    r.consumed == 0 || (multi_spec(r.duration_input) matches Ok(s) && reachable(s).len()
        >= r.consumed)
}

/// Whether a stored record can be restored: the replay reaches its count,
/// a pause is stored only for a started timer, and its values lie in the
/// library's ranges.
pub open spec fn restorable(r: RecordView) -> bool {
    let started = r.consumed > 0 || r.start is Some;
    &&& replay_reaches(r)
    &&& (r.duration matches Some(d) ==> d <= MAX_TOTAL_MS)
    &&& (r.start matches Some(s) ==> in_instants(s as int))
    &&& (r.last_pause matches Some(p) ==> started && in_instants(p as int))
    &&& r.acc_pause_duration <= MAX_SPAN_MS
}

/// Whether `m` is what restoring `r` gives: the replay reached the stored
/// count, and every stored time was put back as it was.
pub open spec fn restored_from(r: RecordView, m: MultiTimer) -> bool {
    &&& m.wf()
    &&& m.input@ == r.duration_input
    &&& m.title@ == r.title
    &&& m.consumed == r.consumed
    &&& (r.duration matches Some(d) ==> m.timer.total == Some(Duration { ms: d as i64 }) && d
        <= MAX_TOTAL_MS)
    &&& (r.start matches Some(s) ==> m.timer.start_time == Some(s))
    &&& (r.last_pause matches Some(p) ==> m.timer.last_pause_time == Some(p))
    &&& (r.last_pause is None ==> m.timer.last_pause_time is None)
    &&& m.timer.acc_paused.ms == r.acc_pause_duration
    &&& r.acc_pause_duration <= MAX_SPAN_MS
    &&& (r.consumed == 0 ==> (r.duration is None ==> m.timer.total is None) && (r.start is None
        ==> m.timer.start_time is None))
}

fn sat_u64_of(ms: i64) -> (r: u64)
    ensures
        r == sat_u64(ms as int),
{
    if ms < 0 {
        0
    } else {
        ms as u64
    }
}

/// Stores a timer.
pub fn encode(m: &MultiTimer) -> (r: TimerRecord)
    ensures
        r@ == record_of(*m),
{
    TimerRecord {
        duration: match m.timer.total {
            Some(d) => Some(sat_u64_of(d.ms)),
            None => None,
        },
        start: m.timer.start_time,
        last_pause: m.timer.last_pause_time,
        acc_pause_duration: sat_u64_of(m.timer.acc_paused.ms),
        duration_input: m.input.clone(),
        title: m.title.clone(),
        consumed: m.consumed,
    }
}

/// Rebuilds a stored timer: reads its input again, replays as many
/// advances as were stored, then puts back the stored times.
///
/// `None` when the replay cannot reach the stored count, when a pause is
/// stored for a timer that has not started, or when a stored value is
/// outside the library's ranges.
pub fn decode(r: &TimerRecord, now: Moment) -> (res: Option<MultiTimer>)
    requires
        now.wf(),
    ensures
        res is Some <==> restorable(r@),
        res matches Some(m) ==> restored_from(r@, m),
        res matches Some(m) ==> {
            &&& (r.consumed == 0 ==> m.iter@.len() == 0 && (r.duration is None ==> m.timer.total is None)
                && (r.start is None ==> m.timer.start_time is None))
            &&& (r.consumed > 0 ==> {
                &&& multi_spec(r.duration_input@) matches Ok(s) && m.iter@ == reachable(s).skip(
                    r.consumed as int,
                )
                &&& (r.start is None ==> m.timer.start_time == Some(now.unix_ms))
            })
            &&& !m.finish_handled
        },
{
    let mut m = MultiTimer::new();
    m.input = r.duration_input.clone();
    m.title = r.title.clone();
    if r.consumed != 0 {
        match m.start(now) {
            Ok(()) => {},
            Err(_) => {
                return None;
            },
        }
        let ghost s = multi_spec(r.duration_input@)->Ok_0;
        if m.consumed == 0 {
            return None;
        }
        let mut k: u64 = 1;
        while k < r.consumed
            invariant
                m.wf(),
                m.input@ == r.duration_input@,
                m.title@ == r.title@,
                now.wf(),
                1 <= k <= r.consumed,
                multi_spec(r.duration_input@) == Ok::<Seq<Seq<char>>, crate::error::Failure>(s),
                k <= reachable(s).len(),
                m.consumed == k,
                m.iter@ == reachable(s).skip(k as int),
                m.timer.total is Some,
                m.timer.start_time == Some(now.unix_ms),
            decreases r.consumed - k,
        {
            match m.next(now) {
                Some(_) => {},
                None => {
                    return None;
                },
            }
            assert(m.iter@ =~= reachable(s).skip(k + 1));
            k = k + 1;
        }
    }
    let mut t = m.timer;
    match r.duration {
        Some(d) => {
            if d > MAX_TOTAL_MS as u64 {
                return None;
            }
            t.total = Some(Duration { ms: d as i64 });
        },
        None => {},
    }
    match r.start {
        Some(s) => {
            if s > MAX_INSTANT_MS || s < -MAX_INSTANT_MS {
                return None;
            }
            t.start_time = Some(s);
        },
        None => {},
    }
    match r.last_pause {
        Some(p) => {
            if t.start_time.is_none() {
                return None;
            }
            if p > MAX_INSTANT_MS || p < -MAX_INSTANT_MS {
                return None;
            }
            t.last_pause_time = Some(p);
        },
        None => {
            t.last_pause_time = None;
        },
    }
    if r.acc_pause_duration > MAX_SPAN_MS as u64 {
        return None;
    }
    t.acc_paused = Duration { ms: r.acc_pause_duration as i64 };
    m.timer = t;
    m.finish_handled = false;
    Some(m)
}

/// The records that can be restored, in order.
pub open spec fn restorable_records(rs: Seq<RecordView>) -> Seq<RecordView>
    decreases rs.len(),
{
    if rs.len() == 0 {
        Seq::empty()
    } else {
        let kept = restorable_records(rs.drop_last());
        if restorable(rs.last()) {
            kept.push(rs.last())
        } else {
            kept
        }
    }
}

pub open spec fn record_views(rs: Seq<TimerRecord>) -> Seq<RecordView> {
    rs.map_values(|r: TimerRecord| r@)
}

/// Rebuilds a stored list of timers: each record that can be restored
/// becomes a timer, in order, and the others are left out; with none left
/// the list holds one fresh timer.
pub fn decode_all(records: Vec<TimerRecord>, now: Moment) -> (r: TimerList)
    requires
        now.wf(),
    ensures
        ({
            let kept = restorable_records(record_views(records@));
            &&& r.wf()
            &&& kept.len() > 0 ==> r@.len() == kept.len() && forall|i: int|
                0 <= i < kept.len() ==> restored_from(kept[i], #[trigger] r@[i])
            &&& kept.len() == 0 ==> r@.len() == 1 && is_fresh(r@[0])
        }),
{
    let ghost rv = record_views(records@);
    let mut timers: Vec<MultiTimer> = Vec::new();
    let mut i: usize = 0;
    while i < records.len()
        invariant
            now.wf(),
            rv == record_views(records@),
            i <= records@.len(),
            timers@.len() == restorable_records(rv.take(i as int)).len(),
            forall|j: int|
                0 <= j < timers@.len() ==> restored_from(
                    restorable_records(rv.take(i as int))[j],
                    #[trigger] timers@[j],
                ),
        decreases records@.len() - i,
    {
        assert(rv.take(i as int + 1).drop_last() == rv.take(i as int));
        assert(rv.take(i as int + 1).last() == records@[i as int]@);
        match decode(&records[i], now) {
            Some(m) => {
                timers.push(m);
            },
            None => {},
        }
        i = i + 1;
    }
    assert(rv.take(records@.len() as int) == rv);
    TimerList::from_timers(timers)
}

} // verus!
