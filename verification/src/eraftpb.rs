use vstd::prelude::*;

verus! {

/// A single replicated-log entry: its position in the log, the leadership
/// term under which it was appended, and an opaque payload. Entries are never
/// mutated after creation; the log only appends or truncates them.
#[derive(Debug, Clone, PartialEq, Default)]
pub struct Entry {
    pub index: u64,
    pub term: u64,
    pub data: Vec<u8>,
}

/// A compaction point: the replicated state as of `index` (appended under
/// `term`), together with an opaque membership/state payload. Stands for all
/// entries up to and including `index`.
#[derive(Debug, Clone, PartialEq, Default)]
pub struct Snapshot {
    pub index: u64,
    pub term: u64,
    pub data: Vec<u8>,
}

/// Durable term/vote/commit bookkeeping, consumed at startup only.
#[derive(Debug, Clone, PartialEq, Default)]
pub struct HardState {
    pub term: u64,
    pub vote: u64,
    pub commit: u64,
}

/// Durable cluster membership: voter ids and learner ids.
#[derive(Debug, Clone, PartialEq, Default)]
pub struct ConfState {
    pub nodes: Vec<u64>,
    pub learners: Vec<u64>,
}

} // verus!
