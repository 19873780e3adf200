//! Bounded dispatch of candidates: at most `limit` of them in flight at once.
use vstd::prelude::*;

verus! {

/// Hands out candidate indices in order while fewer than `limit` are in flight.
pub struct Dispatcher {
    pub limit: usize,
    pub total: usize,
    pub started: usize,
    pub in_flight: usize,
}

impl Dispatcher {
    pub open spec fn wf(&self) -> bool {
        &&& 1 <= self.limit
        &&& self.started <= self.total
        &&& self.in_flight <= self.started
        &&& self.in_flight <= self.limit
    }

    /// The number of candidates that have reached a terminal state.
    pub open spec fn completed(&self) -> nat {
        (self.started - self.in_flight) as nat
    }

    /// A dispatcher for `total` candidates; a `limit` of 0 counts as 1.
    pub fn new(total: usize, limit: usize) -> (r: Dispatcher)
        ensures
            r.wf(),
            r.total == total,
            r.limit == if limit == 0 { 1 } else { limit },
            r.started == 0,
            r.in_flight == 0,
    {
        Dispatcher { limit: if limit == 0 { 1 } else { limit }, total, started: 0, in_flight: 0 }
    }

    /// The next candidate to start, if one is left and a slot is free.
    pub fn try_start(&mut self) -> (r: Option<usize>)
        requires
            old(self).wf(),
        ensures
            final(self).wf(),
            final(self).limit == old(self).limit,
            final(self).total == old(self).total,
            old(self).in_flight < old(self).limit && old(self).started < old(self).total ==> {
                &&& r == Some(old(self).started)
                &&& final(self).started == old(self).started + 1
                &&& final(self).in_flight == old(self).in_flight + 1
            },
            !(old(self).in_flight < old(self).limit && old(self).started < old(self).total) ==> {
                &&& r is None
                &&& *final(self) == *old(self)
            },
    {
        if self.in_flight < self.limit && self.started < self.total {
            let i = self.started;
            self.started = self.started + 1;
            self.in_flight = self.in_flight + 1;
            Some(i)
        } else {
            None
        }
    }

    /// Records that one candidate in flight has reached a terminal state.
    pub fn complete(&mut self)
        requires
            old(self).wf(),
            old(self).in_flight > 0,
        ensures
            final(self).wf(),
            final(self).limit == old(self).limit,
            final(self).total == old(self).total,
            final(self).started == old(self).started,
            final(self).in_flight == old(self).in_flight - 1,
            final(self).completed() == old(self).completed() + 1,
    {
        self.in_flight = self.in_flight - 1;
    }

    /// Whether every candidate has reached a terminal state.
    pub fn is_finished(&self) -> (r: bool)
        requires
            self.wf(),
        ensures
            r == (self.completed() == self.total),
    {
        self.started == self.total && self.in_flight == 0
    }
}

} // verus!
