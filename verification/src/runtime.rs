//! The scheduler: the task table, the deadlines, and the entry points that the
//! owner's I/O loop drives.

use vstd::prelude::*;
use std::collections::HashMap;
use std::collections::VecDeque;
use crate::context::ExtData;
use crate::context::ExtView;
use crate::context::follows;
use crate::net::Address;
use crate::net::Datagram;
use crate::task::Poll;
use crate::task::Task;
use crate::theory::lemma_polled_frame;
use crate::theory::lemma_polled_wf;
use crate::theory::lemma_ticked_frame;

verus! {

broadcast use vstd::std_specs::hash::group_hash_axioms;

/// What a scheduler holds, as mathematical values.
pub struct RuntimeView<T> {
    /// The suspended tasks with their ids, in the order in which they are
    /// polled.
    pub tasks: Seq<(usize, T)>,
    /// The id that the next spawned task gets.
    pub next_id: usize,
    /// The deadline of each suspended task that has one.
    pub deadlines: Map<usize, u64>,
    /// The datagrams waiting to be collected, oldest first.
    pub outgoing: Seq<Datagram>,
    /// The datagrams handed in and not consumed yet, oldest first.
    pub inbox: Seq<Datagram>,
}

/// Whether `t` is the earliest of the deadlines: it is one of them and none
/// is before it.
pub open spec fn is_earliest(deadlines: Map<usize, u64>, t: u64) -> bool {
    &&& deadlines.values().contains(t)
    &&& forall|k: usize| deadlines.contains_key(k) ==> t <= #[trigger] deadlines[k]
}

/// Whether a task table holds a task with this id.
pub open spec fn holds<T>(tasks: Seq<(usize, T)>, id: usize) -> bool {
    exists|i: int| 0 <= i < tasks.len() && (#[trigger] tasks[i]).0 == id
}

/// Whether a task table, the next id and the deadlines fit together: the tasks
/// stand in the order of their ids, which are all different and all below the
/// next id, and only tasks in the table have a deadline.
pub open spec fn table_wf<T>(
    tasks: Seq<(usize, T)>,
    next_id: usize,
    deadlines: Map<usize, u64>,
) -> bool {
    &&& forall|i: int, j: int|
        0 <= i < j < tasks.len() ==> (#[trigger] tasks[i]).0 < (#[trigger] tasks[j]).0
    &&& forall|i: int| 0 <= i < tasks.len() ==> (#[trigger] tasks[i]).0 < next_id
    &&& forall|k: usize| #[trigger] deadlines.contains_key(k) ==> holds(tasks, k)
}

impl<T: Task> RuntimeView<T> {
    /// Whether the task table holds a task with this id.
    pub open spec fn holds(self, id: usize) -> bool {
        holds(self.tasks, id)
    }

    /// The invariant of a scheduler: the suspended tasks stand in the order of
    /// their ids, which are all different and all below the next id, and only
    /// suspended tasks have a deadline.
    pub open spec fn wf(self) -> bool {
        table_wf(self.tasks, self.next_id, self.deadlines)
    }

    /// The same scheduler with `waiting` behind its suspended tasks.
    pub open spec fn with_waiting(self, waiting: Seq<(usize, T)>) -> Self {
        RuntimeView { tasks: self.tasks + waiting, ..self }
    }

    /// What the context reads that is checked out for a poll of task `id` at
    /// time `now`: the three buffers as they are, but for the task's own
    /// deadline, which is cleared. A task that wants one sets it in each poll.
    pub open spec fn checked_out(self, id: usize, now: u64) -> ExtView {
        ExtView {
            task_id: id,
            now,
            deadlines: self.deadlines.remove(id),
            outgoing: self.outgoing,
            inbox: self.inbox,
        }
    }

    /// The scheduler after a poll of task `id` that left the task as `after`
    /// and the context reading `cx`: the buffers are those of the context. A
    /// task that is not finished goes back behind the suspended ones; a
    /// finished one is dropped, and its deadline with it.
    pub open spec fn checked_in(self, id: usize, after: T, cx: ExtView, finished: bool) -> Self {
        RuntimeView {
            tasks: if finished {
                self.tasks
            } else {
                self.tasks.push((id, after))
            },
            next_id: self.next_id,
            deadlines: if finished {
                cx.deadlines.remove(id)
            } else {
                cx.deadlines
            },
            outgoing: cx.outgoing,
            inbox: cx.inbox,
        }
    }

    /// Whether `post` is what one poll of `task` under the id `id` at time
    /// `now` can make of this scheduler: the context is checked out, the task
    /// resumes in it once, within the effects allowed to a poll, and the
    /// result is checked in.
    pub open spec fn polled(self, id: usize, task: T, now: u64, post: Self) -> bool {
        exists|after: T, cx: ExtView, finished: bool|
            {
                &&& task.resumes(self.checked_out(id, now), after, cx, finished)
                &&& follows(self.checked_out(id, now), cx)
                &&& post == #[trigger] self.checked_in(id, after, cx, finished)
            }
    }

    /// Whether `post` is what polling the first `n` suspended tasks, one after
    /// the other in their order, can make of this scheduler with its task table
    /// emptied first.
    pub open spec fn ticked_through(self, n: nat, now: u64, post: Self) -> bool
        decreases n,
    {
        if n == 0 {
            post == (RuntimeView { tasks: Seq::empty(), ..self })
        } else {
            &&& n <= self.tasks.len()
            &&& exists|mid: Self|
                {
                    &&& self.ticked_through((n - 1) as nat, now, mid)
                    &&& #[trigger] mid.polled(
                        self.tasks[n - 1].0,
                        self.tasks[n - 1].1,
                        now,
                        post,
                    )
                }
        }
    }

    /// Whether `post` is what one tick at time `now` can make of this
    /// scheduler: every suspended task is polled once, in the order of the
    /// table.
    pub open spec fn ticked(self, now: u64, post: Self) -> bool {
        self.ticked_through(self.tasks.len(), now, post)
    }

    /// What collecting a datagram hands out and leaves behind: the oldest of
    /// the datagrams waiting to be sent leaves the queue; where none waits,
    /// nothing is handed out and nothing changes.
    pub open spec fn datagram_polled(self) -> (Option<Datagram>, Self) {
        if self.outgoing.len() > 0 {
            (Some(self.outgoing[0]), RuntimeView { outgoing: self.outgoing.drop_first(), ..self })
        } else {
            (None, self)
        }
    }

    /// The scheduler with one more datagram at the back of its inbox.
    pub open spec fn received(self, datagram: Datagram) -> Self {
        RuntimeView { inbox: self.inbox.push(datagram), ..self }
    }

    /// Whether `post` is what spawning `task` at time `now` can make of this
    /// scheduler: the task gets the next id and is polled once.
    pub open spec fn spawned(self, task: T, now: u64, post: Self) -> bool {
        (RuntimeView { next_id: (self.next_id + 1) as usize, ..self }).polled(
            self.next_id,
            task,
            now,
            post,
        )
    }
}

/// The scheduler.
///
/// It owns the suspended tasks and the three buffers that they work on: the
/// deadlines, the datagrams waiting to be sent and the inbox. It does nothing
/// by itself: its owner spawns tasks, hands in the time and the datagrams that
/// arrive, and collects the next deadline and the datagrams to send.
pub struct Runtime<T: Task> {
    tasks: Vec<(usize, T)>,
    next_id: usize,
    deadlines: HashMap<usize, u64>,
    scheduled_datagrams: VecDeque<Datagram>,
    received_datagrams: VecDeque<Datagram>,
}

impl<T: Task> View for Runtime<T> {
    type V = RuntimeView<T>;

    closed spec fn view(&self) -> RuntimeView<T> {
        RuntimeView {
            tasks: self.tasks@,
            next_id: self.next_id,
            deadlines: self.deadlines@,
            outgoing: self.scheduled_datagrams@,
            inbox: self.received_datagrams@,
        }
    }
}

impl<T: Task> Default for Runtime<T> {
    /// A scheduler with no task, no deadline and no datagram.
    fn default() -> (r: Self)
        ensures
            r@ == (RuntimeView::<T> {
                tasks: Seq::empty(),
                next_id: 0,
                deadlines: Map::empty(),
                outgoing: Seq::empty(),
                inbox: Seq::empty(),
            }),
            r.wf(),
    {
        Runtime {
            tasks: Vec::new(),
            next_id: 0,
            deadlines: HashMap::new(),
            scheduled_datagrams: VecDeque::new(),
            received_datagrams: VecDeque::new(),
        }
    }
}

impl<T: Task> Runtime<T> {
    /// The scheduler's invariant holds.
    pub open spec fn wf(&self) -> bool {
        self@.wf()
    }

    /// The id that the next spawned task gets. Ids are handed out in rising
    /// order and never twice.
    pub fn next_id(&self) -> (id: usize)
        ensures
            id == self@.next_id,
    {
        self.next_id
    }

    /// Registers `task` under the next id and polls it once, at time `now`.
    ///
    /// The ids must not have run out: `next_id` is below `usize::MAX`.
    pub fn spawn(&mut self, task: T, now: u64)
        requires
            old(self).wf(),
            old(self)@.next_id < usize::MAX,
        ensures
            final(self).wf(),
            old(self)@.spawned(task, now, final(self)@),
            old(self)@.outgoing.is_prefix_of(final(self)@.outgoing),
    {
        let task_id = self.next_id;
        self.next_id += 1;
        proof {
            let counted = self@.with_waiting(seq![(task_id, task)] + Seq::empty());
            assert forall|k: usize| #[trigger] counted.deadlines.contains_key(k) implies counted.holds(
                k,
            ) by {
                let i = choose|i: int|
                    0 <= i < old(self)@.tasks.len() && (#[trigger] old(self)@.tasks[i]).0 == k;
                assert(counted.tasks[i].0 == k);
            }
        }
        let ghost pre = self@;
        self.poll_task(task_id, task, now);
        proof {
            lemma_polled_wf(pre, task_id, task, now, self@, Seq::empty());
            lemma_polled_frame(pre, task_id, task, now, self@);
        }
    }

    /// The earliest deadline among the suspended tasks, or `None` if none of
    /// them has one.
    pub fn poll_timeout(&self) -> (r: Option<u64>)
        ensures
            match r {
                Some(t) => is_earliest(self@.deadlines, t),
                None => forall|k: usize| !self@.deadlines.contains_key(k),
            },
    {
        let mut best: Option<u64> = None;
        for v in it: self.deadlines.values()
            invariant
                it.seq().unref().to_set() == self.deadlines@.values(),
                it.seq().len() == self.deadlines@.dom().len(),
                best is None <==> it.index() == 0,
                best matches Some(b) ==> {
                    &&& exists|j: int| 0 <= j < it.index() && *it.seq()[j] == b
                    &&& forall|j: int| 0 <= j < it.index() ==> b <= *it.seq()[j]
                },
                it.index() == it.seq().len() ==> (best matches Some(b) ==> is_earliest(
                    self.deadlines@,
                    b,
                )),
        {
            let v: u64 = *v;
            let ghost before = best;
            best =
            match best {
                None => Some(v),
                Some(b) => if v < b {
                    Some(v)
                } else {
                    Some(b)
                },
            };
            assert(it.index() + 1 == it.seq().len() ==> is_earliest(self.deadlines@, best->0)) by {
                let b = best->0;
                if it.index() + 1 == it.seq().len() {
                    assert(exists|j: int| 0 <= j < it.index() + 1 && *it.seq()[j] == b) by {
                        if before is Some && before->0 <= v {
                            let j = choose|j: int| 0 <= j < it.index() && *it.seq()[j] == b;
                            assert(0 <= j < it.index() + 1 && *it.seq()[j] == b);
                        } else {
                            assert(*it.seq()[it.index()] == b);
                        }
                    }
                    let j = choose|j: int| 0 <= j < it.index() + 1 && *it.seq()[j] == b;
                    assert(it.seq().unref()[j] == b);
                    assert(it.seq().unref().to_set().contains(b));
                    assert forall|k: usize| self.deadlines@.contains_key(k) implies b
                        <= #[trigger] self.deadlines@[k] by {
                        let x = self.deadlines@[k];
                        assert(self.deadlines@.values().contains(x));
                        assert(it.seq().unref().to_set().contains(x));
                        let i = choose|i: int|
                            0 <= i < it.seq().unref().len() && it.seq().unref()[i] == x;
                        assert(*it.seq()[i] == x);
                    }
                }
            }
        }
        proof {
            if best is None {
                assert(self.deadlines@.dom().len() == 0);
                assert forall|k: usize| !self@.deadlines.contains_key(k) by {
                    if self.deadlines@.dom().contains(k) {
                        vstd::set_lib::lemma_set_empty_equivalency_len(self.deadlines@.dom());
                    }
                }
            }
        }
        best
    }

    /// Takes the oldest datagram out of the queue of datagrams to send, or
    /// returns `None`, and changes nothing, if the queue is empty.
    pub fn poll_datagram(&mut self) -> (r: Option<Datagram>)
        requires
            old(self).wf(),
        ensures
            final(self).wf(),
            (r, final(self)@) == old(self)@.datagram_polled(),
    {
        self.scheduled_datagrams.pop_front()
    }

    /// Puts a datagram that arrived on `local` from `remote` at the back of
    /// the inbox, then polls every suspended task at time `now`.
    pub fn handle_input(&mut self, local: Address, remote: Address, msg: Vec<u8>, now: u64)
        requires
            old(self).wf(),
        ensures
            final(self).wf(),
            old(self)@.received((local, remote, msg)).ticked(now, final(self)@),
            old(self)@.outgoing.is_prefix_of(final(self)@.outgoing),
    {
        self.received_datagrams.push_back((local, remote, msg));
        self.tick(now);
    }

    /// Polls every suspended task at time `now`. The owner calls this when
    /// the time that `poll_timeout` gave has come.
    pub fn handle_timeout(&mut self, now: u64)
        requires
            old(self).wf(),
        ensures
            final(self).wf(),
            old(self)@.ticked(now, final(self)@),
            old(self)@.outgoing.is_prefix_of(final(self)@.outgoing),
    {
        self.tick(now);
    }

    /// Polls every suspended task once at time `now`, in the order of their
    /// ids. Tasks that finish leave the table, the others stay in their order.
    pub fn tick(&mut self, now: u64)
        requires
            old(self).wf(),
        ensures
            final(self).wf(),
            old(self)@.ticked(now, final(self)@),
            old(self)@.outgoing.is_prefix_of(final(self)@.outgoing),
    {
        let mut pending: Vec<(usize, T)> = Vec::new();
        core::mem::swap(&mut pending, &mut self.tasks);
        let ghost all = old(self)@.tasks;
        let ghost mut n: nat = 0;
        proof {
            assert(self@.with_waiting(all.subrange(0, all.len() as int)).tasks =~= all);
        }
        for entry in it: pending
            invariant
                it.seq() == all,
                all == old(self)@.tasks,
                n == it.index(),
                old(self)@.ticked_through(n, now, self@),
                self@.with_waiting(all.subrange(n as int, all.len() as int)).wf(),
        {
            let (task_id, task) = entry;
            let ghost mid = self@;
            self.poll_task(task_id, task, now);
            proof {
                let waiting = all.subrange(n as int + 1, all.len() as int);
                assert(seq![(task_id, task)] + waiting =~= all.subrange(n as int, all.len() as int));
                lemma_polled_wf(mid, task_id, task, now, self@, waiting);
                assert(old(self)@.ticked_through(n + 1, now, self@)) by {
                    assert(old(self)@.ticked_through(((n + 1) - 1) as nat, now, mid));
                }
                n = n + 1;
            }
        }
        proof {
            assert(self@.with_waiting(all.subrange(n as int, all.len() as int)).tasks
                =~= self@.tasks);
            lemma_ticked_frame(old(self)@, now, self@);
        }
    }

    /// Whether no task is suspended: every task that was spawned has finished.
    pub fn is_finished(&self) -> (r: bool)
        ensures
            r == (self@.tasks.len() == 0),
    {
        self.tasks.is_empty()
    }

    /// Polls `task` once under the id `task_id` at time `now`: checks the
    /// buffers out into a context, resumes the task in it, and checks them in
    /// again.
    fn poll_task(&mut self, task_id: usize, task: T, now: u64)
        ensures
            old(self)@.polled(task_id, task, now, final(self)@),
    {
        let mut task = task;
        let mut ext_data = self.check_out(task_id, now);
        let outcome = task.resume(&mut ext_data);
        let ghost cx = ext_data@;
        self.check_in(task_id, task, ext_data, outcome.is_ready());
        proof {
            assert(self@ == old(self)@.checked_in(task_id, task, cx, outcome is Ready));
        }
    }

    /// Moves the three buffers into a context for a poll of task `task_id`
    /// at time `now`, and clears the task's deadline. The scheduler's own
    /// buffers are empty until the context is checked in.
    fn check_out(&mut self, task_id: usize, now: u64) -> (cx: ExtData)
        ensures
            cx@ == old(self)@.checked_out(task_id, now),
            cx.origin() == cx@,
            cx.wf(),
            final(self)@ == (RuntimeView {
                deadlines: Map::empty(),
                outgoing: Seq::empty(),
                inbox: Seq::empty(),
                ..old(self)@
            }),
    {
        let mut deadlines: HashMap<usize, u64> = HashMap::new();
        let mut scheduled_datagrams: VecDeque<Datagram> = VecDeque::new();
        let mut received_datagrams: VecDeque<Datagram> = VecDeque::new();
        core::mem::swap(&mut deadlines, &mut self.deadlines);
        core::mem::swap(&mut scheduled_datagrams, &mut self.scheduled_datagrams);
        core::mem::swap(&mut received_datagrams, &mut self.received_datagrams);
        deadlines.remove(&task_id);
        ExtData::new(task_id, now, deadlines, scheduled_datagrams, received_datagrams)
    }

    /// Takes the buffers back from the context of a poll of task `task_id`.
    /// A task that is not finished is stored again, behind the others; a
    /// finished one is dropped, together with any deadline it set.
    fn check_in(&mut self, task_id: usize, task: T, cx: ExtData, finished: bool)
        ensures
            final(self)@ == old(self)@.checked_in(task_id, task, cx@, finished),
    {
        let (mut deadlines, scheduled_datagrams, received_datagrams) = cx.into_parts();
        if finished {
            deadlines.remove(&task_id);
        } else {
            self.tasks.push((task_id, task));
        }
        self.deadlines = deadlines;
        self.scheduled_datagrams = scheduled_datagrams;
        self.received_datagrams = received_datagrams;
    }
}

} // verus!
