use std::cell::RefCell;
use std::rc::Rc;

use sans_io_runtime::context::ExtData;
use sans_io_runtime::net::Address;
use sans_io_runtime::task::{Poll, Task};
use sans_io_runtime::udp::{RecvFromFuture, RecvFuture, SendFuture};
use sans_io_runtime::{udp, Runtime};

const SRC1: Address = Address::V4 { octets: 0x0A00_0001, port: 1234 };

const DST1: Address = Address::V4 { octets: 0xC0A8_0001, port: 5678 };
const DST2: Address = Address::V4 { octets: 0xC0A8_0002, port: 5678 };

type Received = Rc<RefCell<Vec<(Address, String)>>>;

/// Sends one datagram to a remote address, then waits for one from that same
/// address and notes what came.
struct Exchange {
    send: Option<SendFuture>,
    recv: RecvFromFuture,
    remote: Address,
    received: Received,
}

impl Exchange {
    fn new(src: Address, dst: Address, bytes: Vec<u8>, received: Received) -> Self {
        Exchange {
            send: Some(udp::send_to(src, dst, bytes)),
            recv: udp::recv_from(src, dst),
            remote: dst,
            received,
        }
    }
}

impl Task for Exchange {
    fn resume(&mut self, cx: &mut ExtData) -> Poll<()> {
        if let Some(send) = self.send.as_mut() {
            if send.poll(cx).is_pending() {
                return Poll::Pending;
            }
            self.send = None;
        }
        match self.recv.poll(cx) {
            Poll::Ready(buf) => {
                let msg = String::from_utf8(buf).unwrap();
                println!("Received '{msg}' from {:?}", self.remote);
                self.received.borrow_mut().push((self.remote, msg));
                Poll::Ready(())
            }
            Poll::Pending => Poll::Pending,
        }
    }
}

/// Waits for one datagram on a local address from anyone and notes it.
struct Listen {
    recv: RecvFuture,
    received: Received,
}

impl Task for Listen {
    fn resume(&mut self, cx: &mut ExtData) -> Poll<()> {
        match self.recv.poll(cx) {
            Poll::Ready((from, buf)) => {
                self.received.borrow_mut().push((from, String::from_utf8(buf).unwrap()));
                Poll::Ready(())
            }
            Poll::Pending => Poll::Pending,
        }
    }
}

/// Either of the two, for schedulers that run both kinds of task.
enum Job {
    Exchange(Exchange),
    Listen(Listen),
}

impl Task for Job {
    fn resume(&mut self, cx: &mut ExtData) -> Poll<()> {
        match self {
            Job::Exchange(task) => task.resume(cx),
            Job::Listen(task) => task.resume(cx),
        }
    }
}

#[test]
fn smoke() {
    let now: u64 = 1_700_000_000_000;
    let mut runtime = Runtime::default();
    let received: Received = Rc::new(RefCell::new(Vec::new()));

    runtime.spawn(Exchange::new(SRC1, DST1, "Hello".as_bytes().to_vec(), received.clone()), now);
    runtime.spawn(Exchange::new(SRC1, DST2, "Hello".as_bytes().to_vec(), received.clone()), now);

    runtime.handle_input(SRC1, DST1, "world".as_bytes().to_vec(), now);
    runtime.handle_input(SRC1, DST2, "foo".as_bytes().to_vec(), now);

    while !runtime.is_finished() {
        runtime.tick(now);
    }

    assert_eq!(
        *received.borrow(),
        vec![(DST1, "world".to_string()), (DST2, "foo".to_string())]
    );
}

#[test]
fn each_task_gets_the_reply_of_its_own_remote() {
    let now: u64 = 5;
    let mut runtime = Runtime::default();
    let first: Received = Rc::new(RefCell::new(Vec::new()));
    let second: Received = Rc::new(RefCell::new(Vec::new()));

    runtime.spawn(Exchange::new(SRC1, DST1, b"Hello".to_vec(), first.clone()), now);
    runtime.spawn(Exchange::new(SRC1, DST2, b"Hello".to_vec(), second.clone()), now);
    assert!(!runtime.is_finished());
    assert_eq!(runtime.poll_timeout(), None);

    // The reply for the second task comes first: the first task must not take it.
    runtime.handle_input(SRC1, DST2, b"foo".to_vec(), now);
    assert!(first.borrow().is_empty());
    assert_eq!(*second.borrow(), vec![(DST2, "foo".to_string())]);
    assert!(!runtime.is_finished());

    runtime.handle_input(SRC1, DST1, b"world".to_vec(), now);
    assert_eq!(*first.borrow(), vec![(DST1, "world".to_string())]);
    assert_eq!(*second.borrow(), vec![(DST2, "foo".to_string())]);
    assert!(runtime.is_finished());

    runtime.tick(now);
    assert!(runtime.is_finished());

    assert_eq!(runtime.poll_datagram(), Some((SRC1, DST1, b"Hello".to_vec())));
    assert_eq!(runtime.poll_datagram(), Some((SRC1, DST2, b"Hello".to_vec())));
    assert_eq!(runtime.poll_datagram(), None);
}

#[test]
fn send_completes_on_its_first_poll() {
    let mut runtime = Runtime::default();
    runtime.spawn(udp::send_to(SRC1, DST1, vec![1, 2, 3]), 0);
    assert!(runtime.is_finished());
    assert_eq!(runtime.poll_timeout(), None);
    assert_eq!(runtime.poll_datagram(), Some((SRC1, DST1, vec![1, 2, 3])));
    assert_eq!(runtime.poll_datagram(), None);
    runtime.tick(1);
    assert_eq!(runtime.poll_datagram(), None);
}

#[test]
fn send_of_an_empty_payload_is_queued() {
    let mut runtime = Runtime::default();
    runtime.spawn(udp::send_to(DST2, SRC1, Vec::new()), 0);
    assert_eq!(runtime.poll_datagram(), Some((DST2, SRC1, Vec::new())));
    assert_eq!(runtime.poll_datagram(), None);
}

#[test]
fn recv_takes_the_oldest_datagram_of_its_local_address() {
    let mut runtime = Runtime::default();
    let received: Received = Rc::new(RefCell::new(Vec::new()));

    // Nothing is suspended yet, so the datagrams stay in the inbox.
    runtime.handle_input(DST1, SRC1, b"other socket".to_vec(), 0);
    runtime.handle_input(SRC1, DST2, b"first".to_vec(), 0);
    runtime.handle_input(SRC1, DST1, b"second".to_vec(), 0);

    runtime.spawn(Listen { recv: udp::recv(SRC1), received: received.clone() }, 1);
    assert!(runtime.is_finished());
    assert_eq!(*received.borrow(), vec![(DST2, "first".to_string())]);

    runtime.spawn(Listen { recv: udp::recv(SRC1), received: received.clone() }, 2);
    assert!(runtime.is_finished());
    assert_eq!(
        *received.borrow(),
        vec![(DST2, "first".to_string()), (DST1, "second".to_string())]
    );

    // Only the datagram for the other local address is left.
    runtime.spawn(Listen { recv: udp::recv(SRC1), received: received.clone() }, 3);
    assert!(!runtime.is_finished());
    assert_eq!(received.borrow().len(), 2);
    assert_eq!(runtime.poll_timeout(), None);

    runtime.spawn(Listen { recv: udp::recv(DST1), received: received.clone() }, 4);
    assert_eq!(received.borrow().len(), 3);
    assert_eq!(received.borrow()[2], (SRC1, "other socket".to_string()));
    assert!(!runtime.is_finished());
}

#[test]
fn pending_recv_polled_again_with_the_same_inbox_changes_nothing() {
    let mut runtime = Runtime::default();
    let received: Received = Rc::new(RefCell::new(Vec::new()));
    runtime.spawn(Job::Exchange(Exchange::new(SRC1, DST1, b"ping".to_vec(), received.clone())), 0);
    assert_eq!(runtime.poll_datagram(), Some((SRC1, DST1, b"ping".to_vec())));

    // A datagram from another remote does not wake the task, however often
    // it is polled, and is not sent or dropped either.
    runtime.handle_input(SRC1, DST2, b"not yours".to_vec(), 0);
    for now in 0..4 {
        runtime.tick(now);
        assert!(!runtime.is_finished());
        assert_eq!(runtime.poll_datagram(), None);
        assert_eq!(runtime.poll_timeout(), None);
        assert!(received.borrow().is_empty());
    }

    runtime.spawn(Job::Listen(Listen { recv: udp::recv(SRC1), received: received.clone() }), 4);
    assert_eq!(*received.borrow(), vec![(DST2, "not yours".to_string())]);
    assert!(!runtime.is_finished());
}

#[test]
fn v4_and_v6_addresses_differ() {
    let v6 = Address::V6 { segments: 0x0A00_0001, port: 1234, flowinfo: 0, scope_id: 0 };
    assert_ne!(SRC1, v6);
    assert_eq!(v6, Address::V6 { segments: 0x0A00_0001, port: 1234, flowinfo: 0, scope_id: 0 });
    assert_ne!(v6, Address::V6 { segments: 0x0A00_0001, port: 1234, flowinfo: 0, scope_id: 1 });
    assert_ne!(DST1, DST2);
    assert_ne!(SRC1, Address::V4 { octets: 0x0A00_0001, port: 1235 });

    let mut runtime = Runtime::default();
    let received: Received = Rc::new(RefCell::new(Vec::new()));
    runtime.handle_input(v6, DST1, b"six".to_vec(), 0);
    runtime.spawn(Listen { recv: udp::recv(SRC1), received: received.clone() }, 0);
    assert!(received.borrow().is_empty());
    runtime.spawn(Listen { recv: udp::recv(v6), received: received.clone() }, 0);
    assert_eq!(*received.borrow(), vec![(DST1, "six".to_string())]);
}
