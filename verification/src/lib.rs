//! An in-process counting utility: each named counter accumulates event
//! counts and call times, decides when a diagnostic log line is due, and
//! computes the delta for a periodic metrics submission.
//!
//! The counter's update algorithm lives in [`counter`]; a process-wide
//! collection of named counters, created lazily on first use, lives in
//! [`registry`]. Emitting the log line and handing the delta to a metrics
//! backend are left to the caller, who receives them as plain values.

pub mod counter;
pub mod registry;
