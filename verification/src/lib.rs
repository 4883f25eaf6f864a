//! A deterministic, tick-driven Raft peer state machine.
//!
//! The core is a pure in-memory step function: the driver feeds it ticks and
//! inbound messages, and observes outbound messages, appended log entries and
//! read states.  Durable storage and the network live outside this crate.

pub mod errors;
pub mod message;
pub mod config;
pub mod idset;
pub mod bridge;
pub mod read_only;
pub mod raft_log;
pub mod codec;
pub mod raft;
pub mod inflights;
pub mod progress;
pub mod progress_set;
