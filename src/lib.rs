//! Streaming aggregation of line-delimited JSON event logs into one summary.
//!
//! Each input line is classified (blank, undecodable, invalid, accepted event)
//! and folded into a running tally; at the end of input the tally yields the
//! top three users, the nearest-rank 95th percentile of durations and the
//! longest event.

pub mod text;
pub mod event;
pub mod ranking;
pub mod stats;
pub mod result;
pub mod engine;
pub mod type_summary;
