//! Proofs of block finality for a GRANDPA-style finality gadget.
//!
//! Finality of a block B is proved to a peer that trusts only a known set of
//! authorities by handing it the justification of a descendant F of B and
//! the headers that lead from B to F. This library holds
//!
//! - the log of authority-set changes and the lookup that says which
//!   justification can prove a block ([`authorities`]);
//! - the assembly of a proof from what a chain backend holds
//!   ([`assembler`], served by the [`provider`]);
//! - the proof and its wire format ([`wire`], with the length prefixes of
//!   [`compact`]);
//! - the check of a received proof against a trusted authority set
//!   ([`verification`]).
//!
//! The chain's storage, the header format and the verification of a
//! justification are not part of it: they come in through the traits
//! [`backend::ChainBackend`], [`wire::HeaderFormat`] and
//! [`verification::Justification`]. These traits promise nothing, and the
//! contracts here assume nothing of their implementations: they say what
//! is done with whatever an implementation returned.

pub mod assembler;
pub mod authorities;
pub mod backend;
pub mod compact;
pub mod error;
pub mod provider;
pub mod verification;
pub mod wire;

pub use assembler::prove_finality;
pub use verification::check_finality_proof;
pub use error::{ClientError, FinalityProofError};
pub use provider::FinalityProofProvider;
pub use wire::FinalityProof;
