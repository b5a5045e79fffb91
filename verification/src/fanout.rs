//! The bounded fan-out discipline: a fixed number of slots, one task per
//! job, slots refilled as tasks resolve, completion only when every job has
//! resolved. The scheduler state lives here, verified; the driver that
//! actually runs tasks supplies the events.

use vstd::prelude::*;

verus! {

/// Scheduler state for one fan-out stage over `total` jobs with at most
/// `width` tasks in flight.
pub struct FanOut {
    pub total: usize,
    pub started: usize,
    pub completed: usize,
    pub width: usize,
}

impl FanOut {
    /// The stage invariant: jobs are handed out at most once each, resolve
    /// at most once each, and the number in flight never exceeds the width.
    pub open spec fn inv(&self) -> bool {
        &&& self.completed <= self.started <= self.total
        &&& self.started - self.completed <= self.width
        &&& self.width >= 1
    }

    pub open spec fn spec_in_flight(&self) -> int {
        self.started - self.completed
    }

    pub fn new(total: usize, width: usize) -> (f: FanOut)
        requires
            width >= 1,
        ensures
            f.inv(),
            f.total == total,
            f.width == width,
            f.started == 0,
            f.completed == 0,
    {
        FanOut { total, started: 0, completed: 0, width }
    }

    /// Hands out the next job if a slot is free and work remains; the job's
    /// index is returned exactly once over the stage's lifetime.
    pub fn try_start(&mut self) -> (r: Option<usize>)
        requires
            old(self).inv(),
        ensures
            final(self).inv(),
            final(self).total == old(self).total,
            final(self).width == old(self).width,
            final(self).completed == old(self).completed,
            match r {
                Some(j) => {
                    &&& old(self).spec_in_flight() < old(self).width
                    &&& old(self).started < old(self).total
                    &&& j == old(self).started
                    &&& final(self).started == old(self).started + 1
                },
                None => {
                    &&& final(self).started == old(self).started
                    &&& (old(self).spec_in_flight() == old(self).width || old(self).started
                        == old(self).total)
                },
            },
    {
        if self.started < self.total && self.started - self.completed < self.width {
            let j = self.started;
            self.started += 1;
            Some(j)
        } else {
            None
        }
    }

    /// Records that one in-flight task resolved (with success or failure:
    /// the stage never cancels siblings either way).
    pub fn complete(&mut self)
        requires
            old(self).inv(),
            old(self).spec_in_flight() > 0,
        ensures
            final(self).inv(),
            final(self).total == old(self).total,
            final(self).width == old(self).width,
            final(self).started == old(self).started,
            final(self).completed == old(self).completed + 1,
    {
        self.completed += 1;
    }

    pub fn in_flight(&self) -> (r: usize)
        requires
            self.inv(),
        ensures
            r == self.spec_in_flight(),
    {
        self.started - self.completed
    }

    /// The stage is finished only once every submitted job has resolved;
    /// then, and only then, the completed count equals the job count.
    pub fn finished(&self) -> (r: bool)
        requires
            self.inv(),
        ensures
            r == (self.completed == self.total),
            r ==> self.started == self.total && self.spec_in_flight() == 0,
    {
        self.completed == self.total
    }
}

} // verus!
