use vstd::prelude::*;

use crate::eraftpb::{ConfState, Entry, HardState, Snapshot};
use crate::errors::Error;

verus! {

/// The durable state read back at startup: hard term/vote/commit bookkeeping
/// paired with the cluster membership. Consumed to bootstrap only.
#[derive(Debug, Clone)]
pub struct RaftState {
    pub hard_state: HardState,
    pub conf_state: ConfState,
}

/// The read-only capability the progress core depends on but does not
/// implement: durable log bounds, terms and snapshots, provided by the
/// storage engine outside this crate. Every method surfaces failures as
/// typed errors; the core performs no retries of its own.
pub trait Storage {
    /// The durable hard state and cluster membership, read once at startup.
    fn initial_state(&self) -> Result<RaftState, Error>;

    /// A slice of persisted log entries in `[low, high)`. `max_size` bounds
    /// the total encoded size of what is returned, but at least one entry
    /// comes back if any exist in the range.
    fn entries(&self, low: u64, high: u64, max_size: u64) -> Result<Vec<Entry>, Error>;

    /// The term of the entry at `idx`, which must lie in
    /// `[first_index() - 1, last_index()]`; the term of the entry just below
    /// `first_index` is retained for matching even though the rest of that
    /// entry may be gone.
    fn term(&self, idx: u64) -> Result<u64, Error>;

    /// The index of the first entry still available through `entries`; older
    /// ones have been compacted into the latest snapshot.
    fn first_index(&self) -> Result<u64, Error>;

    /// The index of the last entry in the durable log.
    fn last_index(&self) -> Result<u64, Error>;

    /// The most recent snapshot. When a snapshot is being prepared but is
    /// not ready yet, the implementation reports that distinguished,
    /// retryable condition as an error and the driver polls again later.
    fn snapshot(&self) -> Result<Snapshot, Error>;
}

} // verus!
