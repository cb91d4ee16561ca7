//! Sending and receiving datagrams.

use vstd::prelude::*;
use crate::context::ExtData;
use crate::context::ExtView;
use crate::context::is_first_match;
use crate::context::taken;
use crate::net::Address;
use crate::net::Datagram;
use crate::net::matches_addresses;
use crate::task::Poll;
use crate::task::Task;

verus! {

/// Sends a datagram with the payload `bytes` from the local address `src` to
/// the remote address `dst`.
pub fn send_to(src: Address, dst: Address, bytes: Vec<u8>) -> (f: SendFuture)
    ensures
        f.src() == src,
        f.dst() == dst,
        f.bytes() == bytes,
{
    SendFuture { src, dst, bytes }
}

/// Receives a datagram that arrives on the local address `src` from exactly
/// the remote address `dst`.
pub fn recv_from(src: Address, dst: Address) -> (f: RecvFromFuture)
    ensures
        f.src() == src,
        f.dst() == dst,
{
    RecvFromFuture { src, dst }
}

/// Receives a datagram that arrives on the local address `src`, whoever sent
/// it. The result is the sender's address with the payload.
pub fn recv(src: Address) -> (f: RecvFuture)
    ensures
        f.src() == src,
{
    RecvFuture { src }
}

/// A computation that queues one datagram to be sent. It never waits.
pub struct SendFuture {
    src: Address,
    dst: Address,
    bytes: Vec<u8>,
}

impl SendFuture {
    /// The local address the datagram is sent from.
    pub closed spec fn src(&self) -> Address {
        self.src
    }

    /// The remote address the datagram is sent to.
    pub closed spec fn dst(&self) -> Address {
        self.dst
    }

    /// The payload that the next poll sends.
    pub closed spec fn bytes(&self) -> Vec<u8> {
        self.bytes
    }

    /// Queues the datagram behind those already waiting to be sent, and is
    /// complete. The payload moves into the queue, so that a later poll would
    /// send an empty one.
    pub fn poll(&mut self, cx: &mut ExtData) -> (r: Poll<()>)
        requires
            old(cx).wf(),
        ensures
            final(cx).wf(),
            final(cx).origin() == old(cx).origin(),
            r is Ready,
            final(cx)@ == (ExtView {
                outgoing: old(cx)@.outgoing.push(
                    (old(self).src(), old(self).dst(), old(self).bytes()),
                ),
                ..old(cx)@
            }),
            final(self).src() == old(self).src(),
            final(self).dst() == old(self).dst(),
            final(self).bytes()@ == Seq::<u8>::empty(),
    {
        let mut bytes: Vec<u8> = Vec::new();
        core::mem::swap(&mut bytes, &mut self.bytes);
        cx.buffer_udp_transmit(self.src, self.dst, bytes);
        Poll::Ready(())
    }
}

impl Task for SendFuture {
    open spec fn resumes(self, cx: ExtView, after: Self, cx_after: ExtView, finished: bool) -> bool {
        &&& finished
        &&& cx_after == (ExtView {
            outgoing: cx.outgoing.push((self.src(), self.dst(), self.bytes())),
            ..cx
        })
        &&& after.src() == self.src()
        &&& after.dst() == self.dst()
        &&& after.bytes()@ == Seq::<u8>::empty()
    }

    fn resume(&mut self, cx: &mut ExtData) -> (r: Poll<()>) {
        self.poll(cx)
    }
}

/// A computation that waits for a datagram on a local address.
pub struct RecvFuture {
    src: Address,
}

impl RecvFuture {
    /// The local address on which the datagram is awaited.
    pub closed spec fn src(&self) -> Address {
        self.src
    }

    /// Takes the oldest datagram in the inbox that arrived on the awaited
    /// local address and completes with its sender and payload; is pending,
    /// with no deadline and no other effect, if there is none.
    pub fn poll(&mut self, cx: &mut ExtData) -> (r: Poll<(Address, Vec<u8>)>)
        requires
            old(cx).wf(),
        ensures
            final(cx).wf(),
            final(cx).origin() == old(cx).origin(),
            *final(self) == *old(self),
            taken(
                old(cx)@,
                old(self).src(),
                None,
                final(cx)@,
                match r {
                    Poll::Ready((from, bytes)) => Some((old(self).src(), from, bytes)),
                    Poll::Pending => None,
                },
            ),
    {
        match cx.take_datagram_by_src(self.src) {
            Some(datagram) => Poll::Ready(datagram),
            None => Poll::Pending,
        }
    }
}

/// A computation that waits for a datagram on a local address from one
/// remote address.
pub struct RecvFromFuture {
    src: Address,
    dst: Address,
}

impl RecvFromFuture {
    /// The local address on which the datagram is awaited.
    pub closed spec fn src(&self) -> Address {
        self.src
    }

    /// The remote address from which the datagram is awaited.
    pub closed spec fn dst(&self) -> Address {
        self.dst
    }

    /// Takes the oldest datagram in the inbox that arrived on the awaited
    /// local address from the awaited remote address and completes with its
    /// payload; is pending, with no deadline and no other effect, if there is
    /// none.
    pub fn poll(&mut self, cx: &mut ExtData) -> (r: Poll<Vec<u8>>)
        requires
            old(cx).wf(),
        ensures
            final(cx).wf(),
            final(cx).origin() == old(cx).origin(),
            *final(self) == *old(self),
            taken(
                old(cx)@,
                old(self).src(),
                Some(old(self).dst()),
                final(cx)@,
                match r {
                    Poll::Ready(bytes) => Some((old(self).src(), old(self).dst(), bytes)),
                    Poll::Pending => None,
                },
            ),
    {
        match cx.take_datagram_by_src_and_dst(self.src, self.dst) {
            Some(datagram) => Poll::Ready(datagram),
            None => Poll::Pending,
        }
    }
}

/// A receive that found nothing finds nothing again while the inbox is
/// unchanged: polled in any context with the same inbox it is pending again
/// and leaves that context as it was, as the first poll left its own.
pub proof fn lemma_recv_repoll(
    first: ExtView,
    local: Address,
    remote: Option<Address>,
    first_after: ExtView,
    second: ExtView,
    second_after: ExtView,
    got: Option<Datagram>,
)
    requires
        taken(first, local, remote, first_after, None),
        second.inbox == first.inbox,
        taken(second, local, remote, second_after, got),
    ensures
        got is None,
        first_after == first,
        second_after == second,
{
    if let Some(d) = got {
        let i = choose|i: int| #[trigger]
            is_first_match(second.inbox, local, remote, i) && d == second.inbox[i];
        assert(matches_addresses(first.inbox[i], local, remote));
    }
}

} // verus!
