//! What follows from the scheduler's model: the invariant that polls and ticks
//! keep, what they leave untouched, and the order in which datagrams leave.

use vstd::prelude::*;
use crate::context::ExtView;
use crate::context::follows;
use crate::context::kept_in_order;
use crate::context::lemma_kept_in_order_chain;
use crate::context::lemma_kept_in_order_same;
use crate::net::Datagram;
use crate::runtime::RuntimeView;
use crate::runtime::is_earliest;
use crate::sleep::Sleep;
use crate::task::Task;

verus! {

/// A poll keeps the scheduler's invariant, whatever tasks are still waiting
/// for their turn in the same tick: where it held with the polled task and the
/// waiting ones counted in, it holds after the poll with the waiting ones
/// counted in.
pub proof fn lemma_polled_wf<T: Task>(
    pre: RuntimeView<T>,
    id: usize,
    task: T,
    now: u64,
    post: RuntimeView<T>,
    waiting: Seq<(usize, T)>,
)
    requires
        pre.with_waiting(seq![(id, task)] + waiting).wf(),
        pre.polled(id, task, now, post),
    ensures
        post.with_waiting(waiting).wf(),
{
    let (after, cx, finished) = choose|after: T, cx: ExtView, finished: bool|
        {
            &&& task.resumes(pre.checked_out(id, now), after, cx, finished)
            &&& follows(pre.checked_out(id, now), cx)
            &&& post == #[trigger] pre.checked_in(id, after, cx, finished)
        };
    let all = pre.with_waiting(seq![(id, task)] + waiting);
    let rest = post.with_waiting(waiting);
    let here = pre.tasks.len() as int;
    // Each place of the table after the poll has a place before it, with the
    // same id, and the places keep their order.
    let back = |i: int| if finished && i >= here { i + 1 } else { i };
    assert forall|i: int| 0 <= i < rest.tasks.len() implies 0 <= back(i) < all.tasks.len() && (
    #[trigger] rest.tasks[i]).0 == all.tasks[back(i)].0 by {}
    assert forall|k: usize| #[trigger] rest.deadlines.contains_key(k) implies rest.holds(k) by {
        if k == id {
            assert(rest.tasks[here].0 == id);
        } else {
            let i = choose|i: int| 0 <= i < all.tasks.len() && (#[trigger] all.tasks[i]).0 == k;
            let j = if finished && i > here { i - 1 } else { i };
            assert(rest.tasks[j].0 == k);
        }
    }
}

/// What one poll leaves as it was, whatever the task does: the next id, the
/// suspended tasks that were there, the deadlines of all other tasks, the
/// datagrams already waiting to be sent, and the order of the inbox. The
/// polled task is back at the end of the table unless it finished, and then
/// it has no deadline.
pub proof fn lemma_polled_frame<T: Task>(
    pre: RuntimeView<T>,
    id: usize,
    task: T,
    now: u64,
    post: RuntimeView<T>,
)
    requires
        pre.polled(id, task, now, post),
    ensures
        post.next_id == pre.next_id,
        pre.outgoing.is_prefix_of(post.outgoing),
        kept_in_order(pre.inbox, post.inbox),
        forall|k: usize|
            k != id ==> (post.deadlines.contains_key(k) <==> pre.deadlines.contains_key(k)),
        forall|k: usize|
            k != id && pre.deadlines.contains_key(k) ==> post.deadlines[k] == pre.deadlines[k],
        post.tasks == pre.tasks || (post.tasks.len() == pre.tasks.len() + 1 && post.tasks.drop_last()
            == pre.tasks && post.tasks.last().0 == id),
        post.tasks == pre.tasks ==> !post.deadlines.contains_key(id),
{
    let (after, cx, finished) = choose|after: T, cx: ExtView, finished: bool|
        {
            &&& task.resumes(pre.checked_out(id, now), after, cx, finished)
            &&& follows(pre.checked_out(id, now), cx)
            &&& post == #[trigger] pre.checked_in(id, after, cx, finished)
        };
    if !finished {
        assert(post.tasks.drop_last() =~= pre.tasks);
    }
}

/// A poll in which the task does nothing new changes nothing. Where resuming
/// a task can only leave it suspended as it is, and the context as it is but
/// for the task's own deadline, which it sets again as it stood, the scheduler
/// after the poll is the scheduler before it with the task back in the table:
/// no deadline has moved and no datagram was queued or consumed.
pub proof fn lemma_idle_poll<T: Task>(
    pre: RuntimeView<T>,
    id: usize,
    task: T,
    now: u64,
    post: RuntimeView<T>,
)
    requires
        pre.polled(id, task, now, post),
        forall|after: T, cx: ExtView, finished: bool| #[trigger]
            task.resumes(pre.checked_out(id, now), after, cx, finished) ==> {
                &&& !finished
                &&& after == task
                &&& cx == (ExtView { deadlines: pre.deadlines, ..pre.checked_out(id, now) })
            },
    ensures
        post == (RuntimeView { tasks: pre.tasks.push((id, task)), ..pre }),
{
}

/// Once a task has finished nothing of it is left: a poll of a task that the
/// table did not hold leaves the task in the table, or else leaves the table
/// as it was and no deadline under the task's id. If the table was empty, it
/// is empty again.
pub proof fn lemma_finished_leaves_no_trace<T: Task>(
    pre: RuntimeView<T>,
    id: usize,
    task: T,
    now: u64,
    post: RuntimeView<T>,
)
    requires
        pre.polled(id, task, now, post),
        !pre.holds(id),
    ensures
        post.holds(id) || (post.tasks == pre.tasks && !post.deadlines.contains_key(id)),
        !post.holds(id) && pre.tasks.len() == 0 ==> post.tasks.len() == 0,
{
    lemma_polled_frame(pre, id, task, now, post);
    if post.tasks != pre.tasks {
    }
}

/// Polling the first `n` suspended tasks keeps the scheduler's invariant with
/// the tasks counted in that are still waiting for their turn.
pub proof fn lemma_ticked_through_wf<T: Task>(
    pre: RuntimeView<T>,
    n: nat,
    now: u64,
    post: RuntimeView<T>,
)
    requires
        pre.wf(),
        pre.ticked_through(n, now, post),
    ensures
        post.with_waiting(pre.tasks.subrange(n as int, pre.tasks.len() as int)).wf(),
    decreases n,
{
    let len = pre.tasks.len() as int;
    if n == 0 {
        assert(post.with_waiting(pre.tasks.subrange(0, len)).tasks =~= pre.tasks);
    } else {
        let mid = choose|mid: RuntimeView<T>|
            {
                &&& pre.ticked_through((n - 1) as nat, now, mid)
                &&& #[trigger] mid.polled(pre.tasks[n - 1].0, pre.tasks[n - 1].1, now, post)
            };
        lemma_ticked_through_wf(pre, (n - 1) as nat, now, mid);
        let waiting = pre.tasks.subrange(n as int, len);
        assert(seq![pre.tasks[n - 1]] + waiting =~= pre.tasks.subrange(n - 1, len));
        lemma_polled_wf(mid, pre.tasks[n - 1].0, pre.tasks[n - 1].1, now, post, waiting);
    }
}

/// A tick keeps the scheduler's invariant: afterwards the suspended tasks
/// still stand in the order of their ids, and only suspended tasks have a
/// deadline.
pub proof fn lemma_ticked_wf<T: Task>(pre: RuntimeView<T>, now: u64, post: RuntimeView<T>)
    requires
        pre.wf(),
        pre.ticked(now, post),
    ensures
        post.wf(),
{
    let len = pre.tasks.len();
    lemma_ticked_through_wf(pre, len, now, post);
}

/// What polling the first `n` suspended tasks leaves as it was, whatever the
/// tasks do: the next id, the datagrams already waiting to be sent, which
/// stay at the front of the queue in their order, and the order of the inbox,
/// which only loses entries. No task comes into the table that was not among
/// those polled.
pub proof fn lemma_ticked_through_frame<T: Task>(
    pre: RuntimeView<T>,
    n: nat,
    now: u64,
    post: RuntimeView<T>,
)
    requires
        pre.ticked_through(n, now, post),
    ensures
        post.next_id == pre.next_id,
        pre.outgoing.is_prefix_of(post.outgoing),
        kept_in_order(pre.inbox, post.inbox),
        post.tasks.len() <= n,
        forall|id: usize|
            post.holds(id) ==> exists|j: int| 0 <= j < n && (#[trigger] pre.tasks[j]).0 == id,
    decreases n,
{
    if n == 0 {
        lemma_kept_in_order_same(pre.inbox);
    } else {
        let mid = choose|mid: RuntimeView<T>|
            {
                &&& pre.ticked_through((n - 1) as nat, now, mid)
                &&& #[trigger] mid.polled(pre.tasks[n - 1].0, pre.tasks[n - 1].1, now, post)
            };
        lemma_ticked_through_frame(pre, (n - 1) as nat, now, mid);
        lemma_polled_frame(mid, pre.tasks[n - 1].0, pre.tasks[n - 1].1, now, post);
        lemma_kept_in_order_chain(pre.inbox, mid.inbox, post.inbox);
        assert forall|id: usize| post.holds(id) implies exists|j: int|
            0 <= j < n && (#[trigger] pre.tasks[j]).0 == id by {
            let i = choose|i: int| 0 <= i < post.tasks.len() && (#[trigger] post.tasks[i]).0 == id;
            if i < mid.tasks.len() {
                assert(mid.holds(id));
                let j = choose|j: int| 0 <= j < n - 1 && (#[trigger] pre.tasks[j]).0 == id;
                assert(0 <= j < n && pre.tasks[j].0 == id);
            } else {
                assert(pre.tasks[n - 1].0 == id);
            }
        }
    }
}

/// No datagram that waits to be sent is lost or overtaken by a tick: what
/// was queued before is still at the front of the queue, in its order. The
/// inbox only loses entries and keeps its order, the next id stays, and every
/// task suspended afterwards was suspended before.
pub proof fn lemma_ticked_frame<T: Task>(pre: RuntimeView<T>, now: u64, post: RuntimeView<T>)
    requires
        pre.ticked(now, post),
    ensures
        post.next_id == pre.next_id,
        pre.outgoing.is_prefix_of(post.outgoing),
        kept_in_order(pre.inbox, post.inbox),
        post.tasks.len() <= pre.tasks.len(),
        forall|id: usize| post.holds(id) ==> pre.holds(id),
{
    lemma_ticked_through_frame(pre, pre.tasks.len(), now, post);
}

impl<T: Task> RuntimeView<T> {
    /// What `n` collections of a datagram in a row hand out, in their order,
    /// and the scheduler after them.
    pub open spec fn drained(self, n: nat) -> (Seq<Option<Datagram>>, Self)
        decreases n,
    {
        if n == 0 {
            (Seq::empty(), self)
        } else {
            let (got, rest) = self.drained((n - 1) as nat);
            let (d, after) = rest.datagram_polled();
            (got.push(d), after)
        }
    }
}

/// Datagrams leave in the order in which they were queued, each exactly once:
/// the first collections hand out the queue from its front, one datagram
/// each, and once the queue is empty every further collection hands out
/// nothing. Nothing but the queue changes.
pub proof fn lemma_datagrams_leave_in_order<T: Task>(s: RuntimeView<T>, n: nat)
    ensures
        s.drained(n).0.len() == n,
        forall|i: int|
            0 <= i < n ==> #[trigger] s.drained(n).0[i] == if i < s.outgoing.len() {
                Some(s.outgoing[i])
            } else {
                None
            },
        s.drained(n).1 == (RuntimeView {
            outgoing: if n <= s.outgoing.len() {
                s.outgoing.skip(n as int)
            } else {
                Seq::empty()
            },
            ..s
        }),
    decreases n,
{
    if n == 0 {
        assert(s.outgoing.skip(0) =~= s.outgoing);
    } else {
        lemma_datagrams_leave_in_order(s, (n - 1) as nat);
        let rest = s.drained((n - 1) as nat).1;
        if n <= s.outgoing.len() {
            assert(rest.outgoing.drop_first() =~= s.outgoing.skip(n as int));
        } else {
            assert(rest.outgoing =~= Seq::empty());
        }
    }
}

/// A datagram that is queued behind `k` others is handed out by the
/// collection after the first `k`, which hand out those others.
pub proof fn lemma_queued_datagram_leaves_once<T: Task>(s: RuntimeView<T>, d: Datagram)
    ensures
        ({
            let queued = RuntimeView { outgoing: s.outgoing.push(d), ..s };
            let k = s.outgoing.len();
            &&& queued.drained(k + 1).0 == s.outgoing.map_values(|x: Datagram| Some(x)).push(
                Some(d),
            )
            &&& queued.drained(k + 1).1 == (RuntimeView { outgoing: Seq::empty(), ..s })
        }),
{
    let queued = RuntimeView { outgoing: s.outgoing.push(d), ..s };
    let k = s.outgoing.len();
    lemma_datagrams_leave_in_order(queued, k + 1);
    assert(queued.outgoing.skip(k + 1 as int) =~= Seq::empty());
}

/// Where a task has set the deadline `t`, the earliest deadline is never
/// after `t`; it is `t` exactly when no other task has an earlier deadline,
/// and otherwise it is the earliest deadline of the other tasks.
pub proof fn lemma_earliest_after_set(deadlines: Map<usize, u64>, id: usize, t: u64, e: u64)
    requires
        is_earliest(deadlines.insert(id, t), e),
    ensures
        e <= t,
        e == t <==> forall|k: usize|
            k != id && deadlines.contains_key(k) ==> t <= #[trigger] deadlines[k],
        e != t ==> is_earliest(deadlines.remove(id), e),
{
    let set = deadlines.insert(id, t);
    assert(set.contains_key(id) && set[id] == t);
    assert forall|k: usize| k != id && deadlines.contains_key(k) implies set.contains_key(k)
        && set[k] == deadlines[k] by {}
    if e != t {
        let k = choose|k: usize| set.contains_key(k) && set[k] == e;
        assert(deadlines.remove(id).contains_key(k) && deadlines.remove(id)[k] == e);
    }
}

/// Whether every suspended task of a scheduler of sleeps is still asleep at
/// time `now` and has its deadline on record.
pub open spec fn all_asleep(s: RuntimeView<Sleep>, now: u64) -> bool {
    forall|i: int|
        0 <= i < s.tasks.len() ==> {
            &&& (#[trigger] s.tasks[i]).1.deadline() > now
            &&& s.deadlines.contains_key(s.tasks[i].0)
            &&& s.deadlines[s.tasks[i].0] == s.tasks[i].1.deadline()
        }
}

/// The sleeps that polls at time `now` have put back into the table are
/// still asleep at that time, each with its deadline on record.
pub proof fn lemma_sleepers_left_asleep(
    pre: RuntimeView<Sleep>,
    n: nat,
    now: u64,
    post: RuntimeView<Sleep>,
)
    requires
        pre.wf(),
        pre.ticked_through(n, now, post),
    ensures
        all_asleep(post, now),
    decreases n,
{
    if n > 0 {
        let mid = choose|mid: RuntimeView<Sleep>|
            {
                &&& pre.ticked_through((n - 1) as nat, now, mid)
                &&& #[trigger] mid.polled(pre.tasks[n - 1].0, pre.tasks[n - 1].1, now, post)
            };
        lemma_sleepers_left_asleep(pre, (n - 1) as nat, now, mid);
        lemma_ticked_through_wf(pre, (n - 1) as nat, now, mid);
        let (id, sleep) = pre.tasks[n - 1];
        let counted = mid.with_waiting(pre.tasks.subrange(n - 1, pre.tasks.len() as int));
        let here = mid.tasks.len() as int;
        assert(counted.tasks[here] == (id, sleep));
        lemma_polled_frame(mid, id, sleep, now, post);
        assert forall|i: int| 0 <= i < post.tasks.len() implies {
            &&& (#[trigger] post.tasks[i]).1.deadline() > now
            &&& post.deadlines.contains_key(post.tasks[i].0)
            &&& post.deadlines[post.tasks[i].0] == post.tasks[i].1.deadline()
        } by {
            if i < here {
                assert(counted.tasks[i] == mid.tasks[i]);
            }
        }
    }
}

/// Polling sleeps again that are all still asleep puts each back where it
/// was and changes nothing else.
pub proof fn lemma_sleepers_polled_again(
    pre: RuntimeView<Sleep>,
    n: nat,
    now: u64,
    post: RuntimeView<Sleep>,
)
    requires
        all_asleep(pre, now),
        pre.ticked_through(n, now, post),
    ensures
        post == (RuntimeView { tasks: pre.tasks.take(n as int), ..pre }),
    decreases n,
{
    if n == 0 {
        assert(pre.tasks.take(0) =~= Seq::empty());
    } else {
        let mid = choose|mid: RuntimeView<Sleep>|
            {
                &&& pre.ticked_through((n - 1) as nat, now, mid)
                &&& #[trigger] mid.polled(pre.tasks[n - 1].0, pre.tasks[n - 1].1, now, post)
            };
        lemma_sleepers_polled_again(pre, (n - 1) as nat, now, mid);
        assert(post.tasks =~= pre.tasks.take(n as int));
        assert(post.deadlines =~= pre.deadlines);
    }
}

/// A tick that is repeated at the same time, with nothing handed in between,
/// changes nothing where all tasks are sleeps: no deadline moves, no datagram
/// is queued, and the same tasks stay suspended.
pub proof fn lemma_sleepers_tick_again(
    pre: RuntimeView<Sleep>,
    now: u64,
    once: RuntimeView<Sleep>,
    twice: RuntimeView<Sleep>,
)
    requires
        pre.wf(),
        pre.ticked(now, once),
        once.ticked(now, twice),
    ensures
        twice == once,
{
    lemma_sleepers_left_asleep(pre, pre.tasks.len(), now, once);
    lemma_sleepers_polled_again(once, once.tasks.len(), now, twice);
    assert(once.tasks.take(once.tasks.len() as int) =~= once.tasks);
}

} // verus!
