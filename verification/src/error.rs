//! The failures that proving and checking finality can end in.

use vstd::prelude::*;
use vstd::std_specs::convert::FromSpecImpl;

verus! {

/// A failure of the chain client.
#[derive(Debug, PartialEq, Eq, Clone)]
pub enum ClientError {
    /// A justification was rejected, for the reason given.
    BadJustification(String),
    /// A justification could not be decoded.
    JustificationDecode,
    /// The backend failed; the text is the backend's own.
    Backend(String),
}

/// Errors occurring when trying to prove finality.
#[derive(Debug)]
pub enum FinalityProofError {
    /// The requested block has not yet been finalized.
    BlockNotYetFinalized,
    /// The requested block is not covered by authority set changes: the log
    /// lacks the entries that would tell which set governs it.
    BlockNotInAuthoritySetChanges,
    /// Errors originating from the client.
    Client(ClientError),
}

impl From<ClientError> for FinalityProofError {
    fn from(error: ClientError) -> (out: FinalityProofError) {
        FinalityProofError::Client(error)
    }
}

impl FromSpecImpl<ClientError> for FinalityProofError {
    open spec fn obeys_from_spec() -> bool {
        true
    }

    open spec fn from_spec(error: ClientError) -> FinalityProofError {
        FinalityProofError::Client(error)
    }
}

} // verus!
