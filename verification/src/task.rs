//! What a suspended computation looks like to the scheduler.

use vstd::prelude::*;
use crate::context::ExtData;
use crate::context::ExtView;

verus! {

/// What one poll of a computation yields: its result, or nothing yet.
#[derive(Debug, PartialEq, Eq)]
pub enum Poll<T> {
    /// The computation is complete and this is its result.
    Ready(T),
    /// The computation is suspended and wants to be polled again.
    Pending,
}

impl<T> Poll<T> {
    /// Whether the poll produced a result.
    pub fn is_ready(&self) -> (r: bool)
        ensures
            r == (self is Ready),
    {
        match self {
            Poll::Ready(_) => true,
            Poll::Pending => false,
        }
    }

    /// Whether the computation is still suspended.
    pub fn is_pending(&self) -> (r: bool)
        ensures
            r == (self is Pending),
    {
        match self {
            Poll::Ready(_) => false,
            Poll::Pending => true,
        }
    }
}

/// A suspended computation that the scheduler can resume.
///
/// A task is an explicit state machine. Each call of [`Task::resume`] runs it
/// from where it stopped to its end or to the next point at which it has to
/// wait, and everything it does to the outside world goes through the context
/// it is handed.
pub trait Task: Sized {
    /// What one resumption may do: started as `self` in a context that reads
    /// `cx`, the task is left as `after`, the context as `cx_after`, and the
    /// task is complete exactly if `finished`.
    ///
    /// A task type that leaves this as it is promises nothing about what it
    /// does. One that states it lets the scheduler's contracts say what a poll
    /// of the task and a tick over such tasks come to.
    open spec fn resumes(
        self,
        cx: ExtView,
        after: Self,
        cx_after: ExtView,
        finished: bool,
    ) -> bool {
        true
    }

    /// Runs the task until it completes or has to wait.
    ///
    /// The context stays the one that was checked out for this poll: the task
    /// may have set its own deadline, queued datagrams to send and taken
    /// datagrams from the inbox, and nothing else.
    fn resume(&mut self, cx: &mut ExtData) -> (r: Poll<()>)
        requires
            old(cx).wf(),
        ensures
            final(cx).wf(),
            final(cx).origin() == old(cx).origin(),
            old(self).resumes(old(cx)@, *final(self), final(cx)@, r is Ready),
    ;
}

} // verus!
