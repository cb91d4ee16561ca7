//! A cooperative task scheduler that is driven entirely from outside: it never
//! touches a socket or a clock, and makes progress only when its owner hands it
//! the current time or a datagram.
//!
//! The owner spawns tasks on a [`Runtime`], feeds it with `handle_timeout` and
//! `handle_input`, and after each call collects what the tasks want from the
//! world with `poll_timeout` and `poll_datagram`. A task is a state machine
//! that implements [`task::Task`]; while it is polled it reaches the
//! scheduler's state through the [`context::ExtData`] it is handed, directly
//! or through the ready-made computations of [`sleep`] and [`udp`].
//!
//! Time is virtual: a `u64` in a unit of the owner's choosing, of which the
//! scheduler uses the order only.

pub mod context;
pub mod net;
pub mod runtime;
pub mod sleep;
pub mod task;
pub mod theory;
pub mod udp;
pub mod waker;

pub use crate::runtime::Runtime;
pub use crate::waker::Waker;
