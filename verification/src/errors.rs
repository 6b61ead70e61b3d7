use vstd::prelude::*;

verus! {

/// Declares `std::io::Error` so that it can stand in a field. vstd gives it
/// no specification; nothing is assumed of a value of it.
#[verifier::external_type_specification]
#[verifier::external_body]
pub struct ExIoError(std::io::Error);

/// The error taxonomy surfaced to the consensus driver. The progress core
/// itself produces only `ConfigInvalid` (a configuration-change conflict);
/// the remaining variants are propagated from the storage and codec
/// collaborators around it.
#[derive(Debug)]
pub enum Error {
    /// An I/O failure propagated from the storage layer.
    Io(std::io::Error),
    /// A generic storage failure.
    Store,
    /// A local message was handed to the step function.
    StepLocalMsg,
    /// A message arrived from or for a peer that is not registered.
    StepPeerNotFound,
    /// A proposal was dropped rather than replicated.
    ProposalDropped,
    /// A configuration change conflicts with the current membership.
    ConfigInvalid,
    /// A message could not be encoded or decoded.
    Codec,
}

impl From<std::io::Error> for Error {
    fn from(e: std::io::Error) -> (r: Error)
        ensures
            r == Error::Io(e),
    {
        Error::Io(e)
    }
}

impl vstd::std_specs::convert::FromSpecImpl<std::io::Error> for Error {
    open spec fn obeys_from_spec() -> bool {
        true
    }

    open spec fn from_spec(e: std::io::Error) -> Error {
        Error::Io(e)
    }
}

} // verus!
