//! A user-space TCP over raw IPv4: segment codec, per-connection control
//! blocks, the state-machine handlers that drive them, a retransmission
//! timer pass, and the synchronous socket API built on those pieces.
//!
//! Everything here is pure computation over plain values: IPv4 addresses are
//! `u32`, instants are milliseconds in a `u64`, and random numbers come in as
//! arguments.  The raw-socket I/O, the threads and the condition-variable
//! event bus live in the accompanying application, which calls into this
//! crate and performs the transmissions and events that each call hands
//! back.
pub mod packet;
pub mod socket;
pub mod tcp;
pub mod tcpflags;
