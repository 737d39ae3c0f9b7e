//! Fremkit: an append-only broadcast log.
//!
//! The library holds the logic of the log: a bounded `Log` whose slots are
//! written once, an append-only `List` of segments with a lookup cache, the
//! unbounded `Channel` made of both, and the `Notifier` state machine that a
//! blocking reader and a producer share. Each operation is verified against
//! a mathematical model of the structure it works on.
//!
//! The structures change through `&mut` and each operation is one atomic
//! step; a program that shares them between threads keeps each behind a
//! lock and sleeps on a condition variable while a `wait_for` is pending.
//!
//! The modules `protocol`, `state`, `snapshot` and `setup` hold the logic of
//! a small request/response service that keeps one channel per key.

pub mod cache;
pub mod channel;
pub mod list;
pub mod log;
pub mod notifier;
pub mod protocol;
pub mod snapshot;
pub mod state;
pub mod setup;

pub use crate::channel::Channel;
pub use crate::log::{Log, LogError};
