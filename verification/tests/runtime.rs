use std::cell::RefCell;
use std::rc::Rc;

use sans_io_runtime::context::ExtData;
use sans_io_runtime::net::Address;
use sans_io_runtime::sleep::Sleep;
use sans_io_runtime::task::{Poll, Task};
use sans_io_runtime::udp::SendFuture;
use sans_io_runtime::{sleep, udp, Runtime};

const LOCAL: Address = Address::V4 { octets: 0x7F00_0001, port: 9000 };
const REMOTE: Address = Address::V4 { octets: 0x7F00_0001, port: 9001 };

/// Notes its name in every poll and finishes after a number of polls.
struct Counted {
    name: u32,
    polls_left: u32,
    log: Rc<RefCell<Vec<u32>>>,
}

impl Task for Counted {
    fn resume(&mut self, _cx: &mut ExtData) -> Poll<()> {
        self.log.borrow_mut().push(self.name);
        if self.polls_left <= 1 {
            Poll::Ready(())
        } else {
            self.polls_left -= 1;
            Poll::Pending
        }
    }
}

#[test]
fn poll_datagram_on_an_empty_queue_returns_none() {
    let mut runtime: Runtime<Sleep> = Runtime::default();
    assert_eq!(runtime.poll_datagram(), None);
    assert_eq!(runtime.poll_datagram(), None);
    assert!(runtime.is_finished());
    assert_eq!(runtime.poll_timeout(), None);
    assert_eq!(runtime.next_id(), 0);

    runtime.spawn(sleep::until(10), 0);
    assert_eq!(runtime.poll_datagram(), None);
    assert!(!runtime.is_finished());
    assert_eq!(runtime.poll_timeout(), Some(10));
    assert_eq!(runtime.next_id(), 1);
}

#[test]
fn a_new_runtime_is_finished_and_has_no_deadline() {
    let mut runtime: Runtime<SendFuture> = Runtime::default();
    assert!(runtime.is_finished());
    assert_eq!(runtime.poll_timeout(), None);
    runtime.tick(0);
    runtime.handle_timeout(u64::MAX);
    assert!(runtime.is_finished());
    assert_eq!(runtime.poll_timeout(), None);
    assert_eq!(runtime.poll_datagram(), None);
}

#[test]
fn poll_timeout_is_the_earliest_deadline() {
    let mut runtime = Runtime::default();
    runtime.spawn(sleep::until(30), 0);
    assert_eq!(runtime.poll_timeout(), Some(30));
    runtime.spawn(sleep::until(10), 0);
    assert_eq!(runtime.poll_timeout(), Some(10));
    runtime.spawn(sleep::until(20), 0);
    assert_eq!(runtime.poll_timeout(), Some(10));
    runtime.spawn(sleep::until(10), 0);
    assert_eq!(runtime.poll_timeout(), Some(10));

    runtime.handle_timeout(9);
    assert_eq!(runtime.poll_timeout(), Some(10));
    // Both tasks with the deadline 10 are woken by the same tick.
    runtime.handle_timeout(10);
    assert_eq!(runtime.poll_timeout(), Some(20));
    runtime.handle_timeout(25);
    assert_eq!(runtime.poll_timeout(), Some(30));
    assert!(!runtime.is_finished());
    runtime.handle_timeout(30);
    assert_eq!(runtime.poll_timeout(), None);
    assert!(runtime.is_finished());
}

#[test]
fn poll_timeout_does_not_change_the_runtime() {
    let mut runtime = Runtime::default();
    runtime.spawn(sleep::until(u64::MAX), 0);
    runtime.spawn(sleep::until(1), 0);
    for _ in 0..5 {
        assert_eq!(runtime.poll_timeout(), Some(1));
    }
    assert!(!runtime.is_finished());
    runtime.tick(u64::MAX - 1);
    assert_eq!(runtime.poll_timeout(), Some(u64::MAX));
    runtime.tick(u64::MAX);
    assert!(runtime.is_finished());
}

#[test]
fn tasks_are_polled_once_per_tick_in_the_order_they_were_spawned() {
    let log = Rc::new(RefCell::new(Vec::new()));
    let mut runtime = Runtime::default();
    for (name, polls) in [(0, 3), (1, 1), (2, 4), (3, 2)] {
        runtime.spawn(Counted { name, polls_left: polls, log: log.clone() }, 0);
    }
    assert_eq!(*log.borrow(), vec![0, 1, 2, 3]);
    assert_eq!(runtime.next_id(), 4);

    log.borrow_mut().clear();
    runtime.tick(0);
    assert_eq!(*log.borrow(), vec![0, 2, 3]);

    log.borrow_mut().clear();
    runtime.handle_input(LOCAL, REMOTE, Vec::new(), 0);
    assert_eq!(*log.borrow(), vec![0, 2]);
    assert!(!runtime.is_finished());

    // A task spawned later is polled after those that are still suspended.
    log.borrow_mut().clear();
    runtime.spawn(Counted { name: 4, polls_left: 2, log: log.clone() }, 0);
    assert_eq!(*log.borrow(), vec![4]);
    runtime.handle_timeout(0);
    assert_eq!(*log.borrow(), vec![4, 2, 4]);
    assert!(runtime.is_finished());
    assert_eq!(runtime.next_id(), 5);

    log.borrow_mut().clear();
    runtime.tick(0);
    assert!(log.borrow().is_empty());
}

#[test]
fn is_finished_when_the_last_task_finishes() {
    let mut runtime = Runtime::default();
    runtime.spawn(sleep::until(10), 0);
    runtime.spawn(sleep::until(20), 0);
    assert!(!runtime.is_finished());
    runtime.tick(15);
    assert!(!runtime.is_finished());
    assert_eq!(runtime.poll_timeout(), Some(20));
    runtime.tick(20);
    assert!(runtime.is_finished());
    assert_eq!(runtime.poll_timeout(), None);
    runtime.spawn(sleep::until(50), 30);
    assert!(!runtime.is_finished());
    assert_eq!(runtime.next_id(), 3);
}

#[test]
fn sends_of_several_spawns_are_collected_in_order() {
    let mut runtime = Runtime::default();
    for i in 0..5u8 {
        runtime.spawn(udp::send_to(LOCAL, REMOTE, vec![i; i as usize]), 0);
        assert!(runtime.is_finished());
    }
    assert_eq!(runtime.poll_datagram(), Some((LOCAL, REMOTE, vec![])));
    assert_eq!(runtime.poll_datagram(), Some((LOCAL, REMOTE, vec![1])));
    runtime.tick(7);
    runtime.spawn(udp::send_to(REMOTE, LOCAL, vec![9]), 8);
    assert_eq!(runtime.poll_datagram(), Some((LOCAL, REMOTE, vec![2, 2])));
    assert_eq!(runtime.poll_datagram(), Some((LOCAL, REMOTE, vec![3, 3, 3])));
    assert_eq!(runtime.poll_datagram(), Some((LOCAL, REMOTE, vec![4, 4, 4, 4])));
    assert_eq!(runtime.poll_datagram(), Some((REMOTE, LOCAL, vec![9])));
    assert_eq!(runtime.poll_datagram(), None);
}

/// Polls one send twice. A scheduler never polls a finished send again; a
/// task that holds one can.
struct SendTwice(SendFuture);

impl Task for SendTwice {
    fn resume(&mut self, cx: &mut ExtData) -> Poll<()> {
        assert_eq!(self.0.poll(cx), Poll::Ready(()));
        assert_eq!(self.0.poll(cx), Poll::Ready(()));
        Poll::Ready(())
    }
}

#[test]
fn a_send_that_is_polled_again_has_given_its_payload_away() {
    let mut runtime = Runtime::default();
    runtime.spawn(SendTwice(udp::send_to(LOCAL, REMOTE, vec![1, 2])), 0);
    assert_eq!(runtime.poll_datagram(), Some((LOCAL, REMOTE, vec![1, 2])));
    assert_eq!(runtime.poll_datagram(), Some((LOCAL, REMOTE, vec![])));
    assert_eq!(runtime.poll_datagram(), None);
}

#[test]
fn poll_tells_ready_from_pending() {
    assert!(Poll::Ready(3).is_ready());
    assert!(!Poll::Ready(3).is_pending());
    assert!(Poll::<u8>::Pending.is_pending());
    assert!(!Poll::<u8>::Pending.is_ready());
}
