//! A verified work-time tracker core.
//!
//! One work session at a time is tracked as a ledger of timestamped rows:
//! a start row and any number of break rows, each an interval that is open
//! until its end time is set.  This crate holds everything that can be
//! reasoned about: the timestamp format and its calendar arithmetic
//! ([`timestamp`], [`codec`]), the ledger rows and how rows are selected
//! ([`task`]), the duration accounting ([`duration`]), the state machine
//! that each command drives ([`session`]), and the laws the machine obeys
//! ([`laws`]).  The [`clock`] module is the single trusted boundary, where
//! the current time is read and immediately checked.
//!
//! Storage and presentation stay outside: callers hand in the rows the
//! store returned and a current time, and get back the new rows, the
//! effect to mirror into the store, and the report to render.

pub mod clock;
pub mod codec;
pub mod duration;
pub mod laws;
pub mod session;
pub mod task;
pub mod timestamp;

pub use task::Task;
pub use timestamp::Timestamp;
