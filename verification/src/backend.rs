//! What proving finality asks of the chain: the finalized tip, stored
//! justifications, headers and hashes.

use crate::error::ClientError;
use crate::wire::{BlockHash, EncodedHeader};
use vstd::prelude::*;

verus! {

/// Names a consensus engine.
pub type ConsensusEngineId = [u8; 4];

/// The engine whose justifications prove finality here.
pub const GRANDPA_ENGINE_ID: ConsensusEngineId = [0x46, 0x52, 0x4e, 0x4b];

/// An encoded justification, short enough for the 32-bit length prefix that
/// precedes it on the wire.
#[derive(Debug)]
pub struct EncodedJustification {
    bytes: Vec<u8>,
}

impl View for EncodedJustification {
    type V = Seq<u8>;

    closed spec fn view(&self) -> Seq<u8> {
        self.bytes@
    }
}

impl EncodedJustification {
    #[verifier::type_invariant]
    spec fn fits_prefix(self) -> bool {
        self.bytes@.len() <= u32::MAX
    }

    /// Takes `bytes` as a justification, unless they are too many.
    pub fn new(bytes: Vec<u8>) -> (out: Option<Self>)
        ensures
            match out {
                Some(justification) => justification@ == bytes@ && bytes@.len() <= u32::MAX,
                None => bytes@.len() > u32::MAX,
            },
    {
        if bytes.len() > u32::MAX as usize {
            None
        } else {
            Some(EncodedJustification { bytes })
        }
    }

    /// The bytes of the justification.
    pub fn into_bytes(self) -> (bytes: Vec<u8>)
        ensures
            bytes@ == self@,
            bytes@.len() <= u32::MAX,
    {
        proof {
            use_type_invariant(&self);
        }
        self.bytes
    }
}

/// The most recent justification that the backend has stored.
#[derive(Debug)]
pub struct BestJustification {
    /// The justification, encoded.
    pub justification: EncodedJustification,
    /// The number of the block that it justifies.
    pub target_number: u64,
}

/// Read access to the chain: the part of a chain backend that proving
/// finality consumes. Each call is one read of the backend's storage.
pub trait ChainBackend {
    /// The number of the highest block that the node holds to be final.
    fn finalized_tip(&self) -> u64;

    /// The most recent stored justification, if there is one.
    fn best_stored_justification(&self) -> Result<Option<BestJustification>, ClientError>;

    /// The justification stored for block `block_number` under the engine
    /// `engine_id`, if there is one.
    fn justification_for(&self, block_number: u64, engine_id: ConsensusEngineId) -> Result<
        Option<EncodedJustification>,
        ClientError,
    >;

    /// The header of block `block_number`; its absence is a failure.
    fn header(&self, block_number: u64) -> Result<EncodedHeader, ClientError>;

    /// The hash of block `block_number`; its absence is a failure.
    fn hash_of(&self, block_number: u64) -> Result<BlockHash, ClientError>;
}

} // verus!
