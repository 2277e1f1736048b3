//! A user-space TCP engine: sequence-space arithmetic on the 32-bit ring,
//! segment acceptability checks, the per-connection state machine with its
//! send/receive bookkeeping, a retransmission scheduler with a smoothed
//! round-trip-time estimator, and the IPv4/TCP header codec path.
//!
//! The engine itself performs no I/O: packet handlers take parsed headers and
//! payload bytes and return the wire frames to transmit, so a caller owning a
//! tunnel device can drive it.

pub mod conn;
pub mod seq_space;
pub mod timer;
pub mod wire;
