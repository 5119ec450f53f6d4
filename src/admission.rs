//! Admission of shard tasks under a bound on how many run at once.
//!
//! The caller runs the tasks. It asks `next_step` what to do, starts the shard
//! it is given, and reports each finished task with `task_finished`. The
//! manifest may be written once `next_step` answers `AllDone`.
use vstd::prelude::*;

verus! {

/// What the caller should do next.
#[derive(PartialEq, Eq, Structural, Debug, Clone, Copy)]
pub enum Step {
    /// Start the task for the shard with this index.
    Start(usize),
    /// Wait until a running task finishes.
    Wait,
    /// Every task has finished.
    AllDone,
}

/// A counting semaphore over shard tasks, which hands out shard indices in order.
pub struct Admission {
    limit: usize,
    total: usize,
    started: usize,
    finished: usize,
}

impl Admission {
    pub closed spec fn spec_limit(&self) -> nat {
        self.limit as nat
    }

    pub closed spec fn spec_total(&self) -> nat {
        self.total as nat
    }

    pub closed spec fn spec_started(&self) -> nat {
        self.started as nat
    }

    pub closed spec fn spec_finished(&self) -> nat {
        self.finished as nat
    }

    /// Number of tasks started and not yet finished.
    pub open spec fn spec_active(&self) -> int {
        self.spec_started() - self.spec_finished()
    }

    pub open spec fn wf(&self) -> bool {
        &&& self.spec_limit() > 0
        &&& self.spec_finished() <= self.spec_started() <= self.spec_total()
        &&& self.spec_active() <= self.spec_limit()
    }

    /// Admission for `total` shard tasks, at most `limit` of them running at once.
    pub fn new(total: usize, limit: usize) -> (r: Admission)
        requires
            limit > 0,
        ensures
            r.wf(),
            r.spec_limit() == limit,
            r.spec_total() == total,
            r.spec_started() == 0,
            r.spec_finished() == 0,
    {
        Admission { limit, total, started: 0, finished: 0 }
    }

    pub fn limit(&self) -> (r: usize)
        ensures
            r == self.spec_limit(),
    {
        self.limit
    }

    pub fn total(&self) -> (r: usize)
        ensures
            r == self.spec_total(),
    {
        self.total
    }

    /// Number of tasks running now.
    pub fn active(&self) -> (r: usize)
        requires
            self.wf(),
        ensures
            r == self.spec_active(),
    {
        self.started - self.finished
    }

    /// Decides what to do next. A `Start(i)` counts task `i` as running from now on.
    pub fn next_step(&mut self) -> (r: Step)
        requires
            old(self).wf(),
        ensures
            final(self).wf(),
            final(self).spec_limit() == old(self).spec_limit(),
            final(self).spec_total() == old(self).spec_total(),
            final(self).spec_finished() == old(self).spec_finished(),
            old(self).spec_started() < old(self).spec_total()
                && old(self).spec_active() < old(self).spec_limit() ==> {
                &&& r == Step::Start(old(self).spec_started() as usize)
                &&& final(self).spec_started() == old(self).spec_started() + 1
            },
            !(old(self).spec_started() < old(self).spec_total()
                && old(self).spec_active() < old(self).spec_limit()) ==> {
                &&& final(self).spec_started() == old(self).spec_started()
                &&& r == (if old(self).spec_finished() == old(self).spec_total() {
                    Step::AllDone
                } else {
                    Step::Wait
                })
            },
    {
        if self.started < self.total && self.started - self.finished < self.limit {
            let i = self.started;
            self.started = self.started + 1;
            Step::Start(i)
        } else if self.finished == self.total {
            Step::AllDone
        } else {
            Step::Wait
        }
    }

    /// Records that one running task has finished.
    pub fn task_finished(&mut self)
        requires
            old(self).wf(),
            old(self).spec_active() > 0,
        ensures
            final(self).wf(),
            final(self).spec_limit() == old(self).spec_limit(),
            final(self).spec_total() == old(self).spec_total(),
            final(self).spec_started() == old(self).spec_started(),
            final(self).spec_finished() == old(self).spec_finished() + 1,
    {
        self.finished = self.finished + 1;
    }
}

/// However steps and completions interleave, no more than `limit` tasks run at
/// once, and all is done only when every task has been started and has finished.
pub proof fn lemma_admission_bound(a: Admission)
    requires
        a.wf(),
    ensures
        0 <= a.spec_active() <= a.spec_limit(),
        a.spec_finished() == a.spec_total() ==> a.spec_started() == a.spec_total()
            && a.spec_active() == 0,
{
}

} // verus!
