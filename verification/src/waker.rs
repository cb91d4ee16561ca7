//! A small per-poll handle that carries a task's identity, the time of the
//! poll and a slot for one deadline.
//!
//! It is all the context that a computation needs which only watches the
//! clock, and small enough to be shared with one behind a waker of the
//! standard library.

use vstd::prelude::*;

verus! {

/// The handle of one poll of one task: which task is polled, at what virtual
/// time, and the deadline the task has asked for during the poll, if any.
pub struct Waker {
    task_id: usize,
    now: u64,
    deadline: Option<u64>,
}

impl Waker {
    /// The task this handle belongs to, as contracts see it.
    pub closed spec fn spec_task_id(&self) -> usize {
        self.task_id
    }

    /// The time of the poll, as contracts see it.
    pub closed spec fn spec_now(&self) -> u64 {
        self.now
    }

    /// The deadline asked for so far, as contracts see it.
    pub closed spec fn spec_deadline(&self) -> Option<u64> {
        self.deadline
    }

    /// A handle for a poll of task `task_id` at time `now`, with no deadline
    /// asked for yet.
    pub fn new(task_id: usize, now: u64) -> (w: Self)
        ensures
            w.task_id() == task_id,
            w.now() == now,
            w.deadline() is None,
    {
        Self { task_id, now, deadline: None }
    }

    /// The task this handle belongs to.
    #[verifier::when_used_as_spec(spec_task_id)]
    pub fn task_id(&self) -> (id: usize)
        ensures
            id == self.task_id(),
    {
        self.task_id
    }

    /// The time of the poll.
    #[verifier::when_used_as_spec(spec_now)]
    pub fn now(&self) -> (t: u64)
        ensures
            t == self.now(),
    {
        self.now
    }

    /// The deadline asked for during this poll, if any.
    #[verifier::when_used_as_spec(spec_deadline)]
    pub fn deadline(&self) -> (d: Option<u64>)
        ensures
            d == self.deadline(),
    {
        self.deadline
    }

    /// Asks to be polled again at `deadline`, in place of any deadline asked
    /// for before.
    pub fn set_deadline(&mut self, deadline: u64)
        ensures
            final(self).deadline() == Some(deadline),
            final(self).task_id() == old(self).task_id(),
            final(self).now() == old(self).now(),
    {
        self.deadline = Some(deadline);
    }
}

} // verus!
