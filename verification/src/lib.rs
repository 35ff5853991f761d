//! Core logic of a small test-run relay.
//!
//! Two halves share this crate. The forwarding half turns the two output
//! streams of a child process into tagged, newline-terminated records bound
//! for a single outbound connection. The scheduling half accepts a job request,
//! acknowledges it at once and describes the background job that runs after.
//!
//! Nothing here performs I/O. Each component that waits on the outside world
//! is written as a state machine: the caller performs the action it is told
//! to perform and reports what happened.

pub mod driver;
pub mod forwarder;
pub mod job;
pub mod lines;
pub mod record;
pub mod schedule;
pub mod sink;
pub mod text;
