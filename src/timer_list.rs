use vstd::prelude::*;
use crate::multi_timer::MultiTimer;

verus! {

/// An ordered list of timers that is never empty: removing the last one
/// puts a fresh one in its place.
#[derive(Debug)]
pub struct TimerList {
    vec: Vec<MultiTimer>,
}

impl View for TimerList {
    type V = Seq<MultiTimer>;

    closed spec fn view(&self) -> Seq<MultiTimer> {
        self.vec@
    }
}

/// Whether a timer is fresh: no input, not started, nothing consumed.
pub open spec fn is_fresh(m: MultiTimer) -> bool {
    &&& m.wf()
    &&& m.input@.len() == 0
    &&& m.title@.len() == 0
    &&& m.timer == crate::timer::Timer::new_spec()
    &&& m.consumed == 0
}

impl TimerList {
    pub open spec fn wf(&self) -> bool {
        self@.len() >= 1 && forall|i: int| 0 <= i < self@.len() ==> (#[trigger] self@[i]).wf()
    }

    /// A list of one fresh timer.
    pub fn new() -> (r: TimerList)
        ensures
            r.wf(),
            r@.len() == 1,
            is_fresh(r@[0]),
    {
        TimerList { vec: vec![MultiTimer::new()] }
    }

    /// The list of the given timers, or of one fresh timer if there are none.
    pub fn from_timers(timers: Vec<MultiTimer>) -> (r: TimerList)
        requires
            forall|i: int| 0 <= i < timers@.len() ==> (#[trigger] timers@[i]).wf(),
        ensures
            r.wf(),
            timers@.len() > 0 ==> r@ == timers@,
            timers@.len() == 0 ==> r@.len() == 1 && is_fresh(r@[0]),
    {
        if timers.len() == 0 {
            TimerList::new()
        } else {
            TimerList { vec: timers }
        }
    }

    /// Replaces the list with the given timers, or with one fresh timer if
    /// there are none.
    pub fn set(&mut self, timers: Vec<MultiTimer>)
        requires
            forall|i: int| 0 <= i < timers@.len() ==> (#[trigger] timers@[i]).wf(),
        ensures
            final(self).wf(),
            timers@.len() > 0 ==> final(self)@ == timers@,
            timers@.len() == 0 ==> final(self)@.len() == 1 && is_fresh(final(self)@[0]),
    {
        *self = TimerList::from_timers(timers);
    }

    /// Adds a fresh timer at the end.
    pub fn push_new(&mut self)
        requires
            old(self).wf(),
        ensures
            final(self).wf(),
            final(self)@.len() == old(self)@.len() + 1,
            final(self)@.take(old(self)@.len() as int) == old(self)@,
            is_fresh(final(self)@.last()),
    {
        self.vec.push(MultiTimer::new());
        assert(self@.take(old(self)@.len() as int) =~= old(self)@);
    }

    /// Removes the timer at `index`; a fresh timer takes the place of the
    /// last one removed.
    pub fn remove_index(&mut self, index: usize)
        requires
            old(self).wf(),
            index < old(self)@.len(),
        ensures
            final(self).wf(),
            old(self)@.len() > 1 ==> final(self)@ == old(self)@.remove(index as int),
            old(self)@.len() == 1 ==> final(self)@.len() == 1 && is_fresh(final(self)@[0]),
    {
        let mut removed = self.vec.remove(index);
        removed.reset();
        if self.vec.len() == 0 {
            self.vec.push(MultiTimer::new());
        }
        assert forall|i: int| 0 <= i < self@.len() implies (#[trigger] self@[i]).wf() by {
            if old(self)@.len() > 1 {
                assert(self@[i] == old(self)@.remove(index as int)[i]);
            }
        }
    }

    /// Removes the timer with identifier `id`; returns whether there was one.
    pub fn remove_id(&mut self, id: u128) -> (r: bool)
        requires
            old(self).wf(),
        ensures
            final(self).wf(),
            r == exists|i: int| 0 <= i < old(self)@.len() && (#[trigger] old(self)@[i]).id == id,
            !r ==> final(self)@ == old(self)@,
    {
        let mut i: usize = 0;
        while i < self.vec.len()
            invariant
                self@ == old(self)@,
                self.wf(),
                i <= self@.len(),
                forall|j: int| 0 <= j < i ==> (#[trigger] self@[j]).id != id,
            decreases self@.len() - i,
        {
            if self.vec[i].id() == id {
                self.remove_index(i);
                return true;
            }
            i = i + 1;
        }
        false
    }

    /// Removes every timer, leaving one fresh timer.
    pub fn clear(&mut self)
        requires
            old(self).wf(),
        ensures
            final(self).wf(),
            final(self)@.len() == 1,
            is_fresh(final(self)@[0]),
    {
        *self = TimerList::new();
    }

    /// The number of timers.
    pub fn len(&self) -> (r: usize)
        ensures
            r == self@.len(),
    {
        self.vec.len()
    }

    /// The timer at `index`.
    pub fn get(&self, index: usize) -> (r: &MultiTimer)
        requires
            index < self@.len(),
        ensures
            *r == self@[index as int],
    {
        &self.vec[index]
    }

    /// Puts `timer` at `index`, in place of the one there.
    pub fn replace(&mut self, index: usize, timer: MultiTimer) -> (r: MultiTimer)
        requires
            old(self).wf(),
            index < old(self)@.len(),
            timer.wf(),
        ensures
            final(self).wf(),
            final(self)@ == old(self)@.update(index as int, timer),
            r == old(self)@[index as int],
    {
        let mut t = timer;
        std::mem::swap(&mut self.vec[index], &mut t);
        t
    }

    /// The timers, in order.
    pub fn to_vec(self) -> (r: Vec<MultiTimer>)
        ensures
            r@ == self@,
    {
        self.vec
    }

    /// Whether the list is as it was made: one timer, with no input.
    pub fn is_initial(&self) -> (r: bool)
        requires
            self.wf(),
        ensures
            r == (self@.len() == 1 && self@[0].input@.len() == 0),
    {
        self.vec.len() == 1 && self.vec[0].input.as_str().unicode_len() == 0
    }
}

} // verus!
