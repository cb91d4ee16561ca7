//! Sleeping until a point in virtual time.

use vstd::prelude::*;
use crate::context::ExtData;
use crate::context::ExtView;
use crate::task::Poll;
use crate::task::Task;

verus! {

/// A computation that completes once the virtual time has reached a deadline.
pub struct Sleep {
    deadline: u64,
}

/// What one poll of a sleep until `deadline` does in a context that reads
/// `cx`: the context afterwards, and whether the sleep is over.
///
/// The sleep is over once the time has reached the deadline. Until then the
/// poll records the deadline as the task's own and changes nothing else.
pub open spec fn sleep_step(deadline: u64, cx: ExtView) -> (ExtView, bool) {
    if cx.now >= deadline {
        (cx, true)
    } else {
        (ExtView { deadlines: cx.deadlines.insert(cx.task_id, deadline), ..cx }, false)
    }
}

/// Sleeps until the virtual time is `deadline` or later.
pub fn until(deadline: u64) -> (s: Sleep)
    ensures
        s.deadline() == deadline,
{
    Sleep { deadline }
}

impl Sleep {
    /// The time at which the sleep is over.
    pub closed spec fn deadline(&self) -> u64 {
        self.deadline
    }

    /// Polls the sleep: it is over if the time of the poll has reached the
    /// deadline, and otherwise asks to be polled again at the deadline.
    pub fn poll(&mut self, cx: &mut ExtData) -> (r: Poll<()>)
        requires
            old(cx).wf(),
        ensures
            final(cx).wf(),
            final(cx).origin() == old(cx).origin(),
            *final(self) == *old(self),
            (final(cx)@, r is Ready) == sleep_step(old(self).deadline(), old(cx)@),
    {
        if cx.now() >= self.deadline {
            return Poll::Ready(());
        }
        cx.set_deadline(self.deadline);
        Poll::Pending
    }
}

impl Task for Sleep {
    open spec fn resumes(self, cx: ExtView, after: Self, cx_after: ExtView, finished: bool) -> bool {
        after == self && (cx_after, finished) == sleep_step(self.deadline(), cx)
    }

    fn resume(&mut self, cx: &mut ExtData) -> (r: Poll<()>) {
        self.poll(cx)
    }
}

/// A sleep that is polled again at the same time, after a poll that left it
/// pending, is pending again and leaves the context as the first poll left it.
/// The same holds where the task's own deadline was cleared between the two
/// polls, as the scheduler does when it polls a task again.
pub proof fn lemma_sleep_repoll(deadline: u64, cx: ExtView)
    requires
        !sleep_step(deadline, cx).1,
    ensures
        ({
            let after = sleep_step(deadline, cx).0;
            let cleared = ExtView { deadlines: after.deadlines.remove(cx.task_id), ..after };
            &&& sleep_step(deadline, after) == (after, false)
            &&& sleep_step(deadline, cleared) == (after, false)
        }),
{
    let after = sleep_step(deadline, cx).0;
    let cleared = ExtView { deadlines: after.deadlines.remove(cx.task_id), ..after };
    assert(after.deadlines.insert(cx.task_id, deadline) =~= after.deadlines);
    assert(cleared.deadlines.insert(cx.task_id, deadline) =~= after.deadlines);
}

} // verus!
