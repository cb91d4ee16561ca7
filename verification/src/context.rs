//! The effect context: the one handle through which a computation, while it is
//! being polled, reads the time and exchanges data with the outside world.

use vstd::prelude::*;
use std::collections::HashMap;
use std::collections::VecDeque;
use crate::net::Address;
use crate::net::Datagram;
use crate::net::matches_addresses;

verus! {

broadcast use vstd::std_specs::hash::group_hash_axioms;

/// What an effect context holds, as mathematical values.
pub struct ExtView {
    /// The task that is being polled.
    pub task_id: usize,
    /// The virtual time of this poll.
    pub now: u64,
    /// The deadline of each task that has one.
    pub deadlines: Map<usize, u64>,
    /// The datagrams waiting to be sent, oldest first.
    pub outgoing: Seq<Datagram>,
    /// The datagrams that came in and were not consumed yet, oldest first.
    pub inbox: Seq<Datagram>,
}

/// Whether `at` names, for each entry of `later`, the place it has in
/// `earlier`, with the places in rising order.
pub open spec fn places(earlier: Seq<Datagram>, later: Seq<Datagram>, at: Seq<int>) -> bool {
    &&& at.len() == later.len()
    &&& forall|j: int|
        0 <= j < at.len() ==> 0 <= #[trigger] at[j] < earlier.len() && later[j] == earlier[at[j]]
    &&& forall|i: int, j: int| 0 <= i < j < at.len() ==> at[i] < at[j]
}

/// Whether `later` is `earlier` with some entries taken out: nothing is added
/// and what is left keeps its order.
pub open spec fn kept_in_order(earlier: Seq<Datagram>, later: Seq<Datagram>) -> bool {
    exists|at: Seq<int>| places(earlier, later, at)
}

/// Whether a context that read `start` can have come to read `end` by the
/// effects that one poll of one task is allowed: the task and the time are the
/// same, no deadline but the task's own has changed, datagrams to send were
/// only added behind those already queued, and the inbox only lost entries.
pub open spec fn follows(start: ExtView, end: ExtView) -> bool {
    &&& end.task_id == start.task_id
    &&& end.now == start.now
    &&& forall|k: usize|
        k != start.task_id ==> (end.deadlines.contains_key(k) <==> start.deadlines.contains_key(k))
    &&& forall|k: usize|
        k != start.task_id && start.deadlines.contains_key(k) ==> end.deadlines[k]
            == start.deadlines[k]
    &&& start.outgoing.is_prefix_of(end.outgoing)
    &&& kept_in_order(start.inbox, end.inbox)
}

/// Whether `i` is the place of the oldest entry of `inbox` for `local` and,
/// where `remote` is given, from that remote address.
pub open spec fn is_first_match(
    inbox: Seq<Datagram>,
    local: Address,
    remote: Option<Address>,
    i: int,
) -> bool {
    &&& 0 <= i < inbox.len()
    &&& matches_addresses(inbox[i], local, remote)
    &&& forall|j: int| 0 <= j < i ==> !matches_addresses(#[trigger] inbox[j], local, remote)
}

/// What taking a datagram for `local` (and from `remote`, where given) does:
/// the oldest matching entry leaves the inbox and is handed out; where there
/// is none, nothing is handed out and nothing changes.
pub open spec fn taken(
    before: ExtView,
    local: Address,
    remote: Option<Address>,
    after: ExtView,
    got: Option<Datagram>,
) -> bool {
    match got {
        Some(d) => exists|i: int|
            {
                &&& #[trigger] is_first_match(before.inbox, local, remote, i)
                &&& d == before.inbox[i]
                &&& after == (ExtView { inbox: before.inbox.remove(i), ..before })
            },
        None => {
            &&& forall|j: int|
                0 <= j < before.inbox.len() ==> !matches_addresses(
                    #[trigger] before.inbox[j],
                    local,
                    remote,
                )
            &&& after == before
        },
    }
}

/// A datagram that is handed out is one that was asked for: it arrived on
/// `local`, and from `remote` where one was given, it stood in the inbox, and
/// the inbox has lost this one entry and no other.
pub proof fn lemma_taken_is_exact(
    before: ExtView,
    local: Address,
    remote: Option<Address>,
    after: ExtView,
    d: Datagram,
)
    requires
        taken(before, local, remote, after, Some(d)),
    ensures
        d.0 == local,
        remote matches Some(r) ==> d.1 == r,
        before.inbox.contains(d),
        after.inbox.len() + 1 == before.inbox.len(),
        after.inbox.to_multiset().insert(d) == before.inbox.to_multiset(),
{
    let i = choose|i: int|
        {
            &&& #[trigger] is_first_match(before.inbox, local, remote, i)
            &&& d == before.inbox[i]
            &&& after == (ExtView { inbox: before.inbox.remove(i), ..before })
        };
    broadcast use vstd::multiset::group_multiset_axioms;

    vstd::seq_lib::to_multiset_remove(before.inbox, i);
    before.inbox.to_multiset_ensures();
    assert(before.inbox.to_multiset().count(d) > 0);
    assert(after.inbox.to_multiset().insert(d) =~= before.inbox.to_multiset());
}

/// Every sequence is itself with nothing taken out.
pub proof fn lemma_kept_in_order_same(s: Seq<Datagram>)
    ensures
        kept_in_order(s, s),
{
    let at = Seq::new(s.len(), |j: int| j);
    assert(places(s, s, at));
}

/// Taking one more entry out keeps the order.
pub proof fn lemma_kept_in_order_remove(earlier: Seq<Datagram>, later: Seq<Datagram>, i: int)
    requires
        kept_in_order(earlier, later),
        0 <= i < later.len(),
    ensures
        kept_in_order(earlier, later.remove(i)),
{
    let at = choose|at: Seq<int>| places(earlier, later, at);
    let fewer = at.remove(i);
    assert forall|j: int| 0 <= j < fewer.len() implies 0 <= #[trigger] fewer[j] < earlier.len()
        && later.remove(i)[j] == earlier[fewer[j]] by {
        if j < i {
            assert(fewer[j] == at[j]);
        } else {
            assert(fewer[j] == at[j + 1]);
        }
    }
    assert(places(earlier, later.remove(i), fewer));
}

/// Taking entries out twice is taking entries out.
pub proof fn lemma_kept_in_order_chain(a: Seq<Datagram>, b: Seq<Datagram>, c: Seq<Datagram>)
    requires
        kept_in_order(a, b),
        kept_in_order(b, c),
    ensures
        kept_in_order(a, c),
{
    let first = choose|at: Seq<int>| places(a, b, at);
    let second = choose|at: Seq<int>| places(b, c, at);
    let both = Seq::new(c.len(), |j: int| first[second[j]]);
    assert forall|i: int, j: int| 0 <= i < j < both.len() implies both[i] < both[j] by {
        assert(second[i] < second[j]);
    }
    assert(places(a, c, both));
}

/// The effect context of one poll of one task.
///
/// While a task is polled the context owns the scheduler's deadline map, its
/// queue of datagrams to send and its inbox; the scheduler takes them back when
/// the poll returns. A context cannot be made or copied outside this crate, so
/// a computation can reach the scheduler's state only through the methods here.
pub struct ExtData {
    task_id: usize,
    now: u64,
    deadlines: HashMap<usize, u64>,
    scheduled_datagrams: VecDeque<Datagram>,
    received_datagrams: VecDeque<Datagram>,
    origin: Ghost<ExtView>,
}

impl View for ExtData {
    type V = ExtView;

    closed spec fn view(&self) -> ExtView {
        ExtView {
            task_id: self.task_id,
            now: self.now,
            deadlines: self.deadlines@,
            outgoing: self.scheduled_datagrams@,
            inbox: self.received_datagrams@,
        }
    }
}

impl ExtData {
    /// What the context read when the scheduler checked it out for this poll.
    pub closed spec fn origin(&self) -> ExtView {
        self.origin@
    }

    /// The context has come from what was checked out by allowed effects only.
    pub open spec fn wf(&self) -> bool {
        follows(self.origin(), self@)
    }

    /// Checks the scheduler's buffers out for one poll of task `task_id` at
    /// time `now`.
    pub(crate) fn new(
        task_id: usize,
        now: u64,
        deadlines: HashMap<usize, u64>,
        scheduled_datagrams: VecDeque<Datagram>,
        received_datagrams: VecDeque<Datagram>,
    ) -> (cx: Self)
        ensures
            cx@ == (ExtView {
                task_id,
                now,
                deadlines: deadlines@,
                outgoing: scheduled_datagrams@,
                inbox: received_datagrams@,
            }),
            cx.origin() == cx@,
            cx.wf(),
    {
        let ghost origin = ExtView {
            task_id,
            now,
            deadlines: deadlines@,
            outgoing: scheduled_datagrams@,
            inbox: received_datagrams@,
        };
        proof {
            lemma_kept_in_order_same(origin.inbox);
        }
        ExtData {
            task_id,
            now,
            deadlines,
            scheduled_datagrams,
            received_datagrams,
            origin: Ghost(origin),
        }
    }

    /// Hands the three buffers back: the deadline map, the datagrams to send
    /// and the inbox.
    pub(crate) fn into_parts(self) -> (parts: (
        HashMap<usize, u64>,
        VecDeque<Datagram>,
        VecDeque<Datagram>,
    ))
        ensures
            parts.0@ == self@.deadlines,
            parts.1@ == self@.outgoing,
            parts.2@ == self@.inbox,
    {
        (self.deadlines, self.scheduled_datagrams, self.received_datagrams)
    }

    /// The virtual time of this poll. It is fixed when the poll begins.
    pub fn now(&self) -> (t: u64)
        ensures
            t == self@.now,
    {
        self.now
    }

    /// Records `deadline` as the time at which the polled task wants to be
    /// polled again, in place of any deadline it had.
    pub fn set_deadline(&mut self, deadline: u64)
        requires
            old(self).wf(),
        ensures
            final(self).wf(),
            final(self).origin() == old(self).origin(),
            final(self)@ == (ExtView {
                deadlines: old(self)@.deadlines.insert(old(self)@.task_id, deadline),
                ..old(self)@
            }),
    {
        self.deadlines.insert(self.task_id, deadline);
    }

    /// Queues a datagram from `src` to `dst` behind those already waiting to
    /// be sent.
    pub fn buffer_udp_transmit(&mut self, src: Address, dst: Address, bytes: Vec<u8>)
        requires
            old(self).wf(),
        ensures
            final(self).wf(),
            final(self).origin() == old(self).origin(),
            final(self)@ == (ExtView {
                outgoing: old(self)@.outgoing.push((src, dst, bytes)),
                ..old(self)@
            }),
    {
        self.scheduled_datagrams.push_back((src, dst, bytes));
    }

    /// Takes the oldest datagram in the inbox that arrived on `src` from
    /// exactly `dst`, and returns its payload.
    pub fn take_datagram_by_src_and_dst(&mut self, src: Address, dst: Address) -> (r: Option<
        Vec<u8>,
    >)
        requires
            old(self).wf(),
        ensures
            final(self).wf(),
            final(self).origin() == old(self).origin(),
            taken(
                old(self)@,
                src,
                Some(dst),
                final(self)@,
                match r {
                    Some(bytes) => Some((src, dst, bytes)),
                    None => None,
                },
            ),
    {
        match self.take_datagram(src, Some(dst)) {
            Some(d) => Some(d.2),
            None => None,
        }
    }

    /// Takes the oldest datagram in the inbox that arrived on `src`, whoever
    /// sent it, and returns the sender's address with the payload.
    pub fn take_datagram_by_src(&mut self, src: Address) -> (r: Option<(Address, Vec<u8>)>)
        requires
            old(self).wf(),
        ensures
            final(self).wf(),
            final(self).origin() == old(self).origin(),
            taken(
                old(self)@,
                src,
                None,
                final(self)@,
                match r {
                    Some((from, bytes)) => Some((src, from, bytes)),
                    None => None,
                },
            ),
    {
        match self.take_datagram(src, None) {
            Some(d) => Some((d.1, d.2)),
            None => None,
        }
    }

    /// Takes the oldest datagram in the inbox that arrived on `src` and, where
    /// `dst` is given, from exactly that remote address.
    pub fn take_datagram(&mut self, src: Address, dst: Option<Address>) -> (r: Option<Datagram>)
        requires
            old(self).wf(),
        ensures
            final(self).wf(),
            final(self).origin() == old(self).origin(),
            taken(old(self)@, src, dst, final(self)@, r),
    {
        let n = self.received_datagrams.len();
        let mut pos: usize = 0;
        while pos < n
            invariant
                n == self.received_datagrams@.len(),
                pos <= n,
                *self == *old(self),
                self.wf(),
                forall|j: int|
                    0 <= j < pos ==> !matches_addresses(
                        #[trigger] self.received_datagrams@[j],
                        src,
                        dst,
                    ),
            decreases n - pos,
        {
            let d = &self.received_datagrams[pos];
            let hit = d.0 == src && match dst {
                Some(remote) => d.1 == remote,
                None => true,
            };
            if hit {
                proof {
                    lemma_kept_in_order_remove(
                        self.origin@.inbox,
                        self.received_datagrams@,
                        pos as int,
                    );
                }
                let r = self.received_datagrams.remove(pos);
                assert(is_first_match(old(self)@.inbox, src, dst, pos as int));
                return r;
            }
            pos += 1;
        }
        None
    }
}

} // verus!
