//! The provider of finality proofs: what answers the request to prove that
//! a block is final.

use crate::assembler::{heard, outcome, prove_finality, result_view, BackendReplies};
use crate::authorities::AuthoritySetChanges;
use crate::backend::ChainBackend;
use crate::error::FinalityProofError;
use std::sync::Arc;
use vstd::prelude::*;

verus! {

/// Where the current log of authority-set changes is had from.
pub trait AuthoritySetSource {
    /// A copy of the log as it stands now.
    fn authority_set_changes(&self) -> AuthoritySetChanges;
}

/// Finality proof provider for serving network requests.
pub struct FinalityProofProvider<B, S> {
    backend: Arc<B>,
    shared_authority_set: Option<S>,
}

impl<B: ChainBackend, S: AuthoritySetSource> FinalityProofProvider<B, S> {
    /// The backend that the provider reads the chain from.
    pub closed spec fn backend(&self) -> Arc<B> {
        self.backend
    }

    /// The source of the authority-set changes, if the provider has one.
    pub closed spec fn shared_authority_set(&self) -> Option<S> {
        self.shared_authority_set
    }

    /// Create new finality proof provider using:
    ///
    /// - backend for accessing blockchain data;
    /// - shared_authority_set for accessing authority set data
    pub fn new(backend: Arc<B>, shared_authority_set: Option<S>) -> (provider: Self)
        ensures
            provider.backend() == backend,
            provider.shared_authority_set() == shared_authority_set,
    {
        FinalityProofProvider { backend, shared_authority_set }
    }

    /// Create new finality proof provider for the service using:
    ///
    /// - backend for accessing blockchain data;
    /// - shared_authority_set for accessing authority set data
    pub fn new_for_service(backend: Arc<B>, shared_authority_set: Option<S>) -> (provider: Arc<Self>)
        ensures
            provider.backend() == backend,
            provider.shared_authority_set() == shared_authority_set,
    {
        Arc::new(Self::new(backend, shared_authority_set))
    }

    /// Prove finality for the given block number by returning a
    /// justification for the last block of the authority set.
    ///
    /// Without a source of authority-set changes there is no proof to give.
    /// With one, the result is that of [`prove_finality`] on a copy of the
    /// log taken now.
    pub fn prove_finality(&self, block: u64) -> (result: Result<Option<Vec<u8>>, FinalityProofError>)
        ensures
            match self.shared_authority_set() {
                None => result == Ok::<Option<Vec<u8>>, FinalityProofError>(None),
                Some(source) => exists|changes: AuthoritySetChanges, replies: BackendReplies|
                    {
                        &&& call_ensures(S::authority_set_changes, (&source,), changes)
                        &&& #[trigger] heard(&*self.backend(), replies, changes@, block)
                        &&& result_view(result) == outcome(replies, changes@, block)
                    },
            },
    {
        let authority_set_changes = match &self.shared_authority_set {
            Some(source) => source.authority_set_changes(),
            None => {
                return Ok(None);
            },
        };
        let ghost changes = authority_set_changes;
        let result = prove_finality(&*self.backend, authority_set_changes, block);
        proof {
            let replies = choose|replies: BackendReplies| #[trigger]
                heard(&*self.backend, replies, changes@, block) && result_view(result) == outcome(
                    replies,
                    changes@,
                    block,
                );
            assert(heard(&*self.backend(), replies, changes@, block));
        }
        result
    }
}

} // verus!
