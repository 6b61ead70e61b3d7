//! Leader-side replication-progress core of a Raft-style consensus engine.
//!
//! Tracks, per follower, how far log replication has advanced, which delivery
//! mode is in effect (probing, pipelined replication, or snapshot transfer),
//! and how many unacknowledged replication messages may be outstanding.

pub mod eraftpb;
pub mod errors;
pub mod log_unstable;
pub mod progress;
pub mod read_only;
pub mod storage;
pub mod util;
