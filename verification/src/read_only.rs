use vstd::prelude::*;

verus! {

/// Selects how the linearizable-read protocol establishes a safe read point.
#[derive(Debug, PartialEq, Eq, Structural, Clone, Copy)]
pub enum ReadOnlyOption {
    /// Guarantees linearizability of the read-only request by communicating
    /// with the quorum. It is the default and suggested option.
    Safe,
    /// Ensures linearizability of the read-only request by relying on the
    /// leader lease. It can be affected by clock drift: if the drift is
    /// unbounded, the leader might keep the lease longer than it should.
    LeaseBased,
}

impl Default for ReadOnlyOption {
    fn default() -> (r: ReadOnlyOption)
        ensures
            r == ReadOnlyOption::Safe,
    {
        ReadOnlyOption::Safe
    }
}

} // verus!
