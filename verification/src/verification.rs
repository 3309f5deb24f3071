//! Checking a finality proof against the authority set that the caller
//! trusts.

use crate::authorities::SetId;
use crate::error::ClientError;
use crate::wire::{decoded, framed_by, proof_view, FinalityProof, HeaderFormat};
use vstd::prelude::*;

verus! {

/// The public key that identifies an authority.
pub type AuthorityId = [u8; 32];

/// The voting weight of an authority.
pub type AuthorityWeight = u64;

/// An authority set: the authorities and their weights.
pub type AuthorityList = Vec<(AuthorityId, AuthorityWeight)>;

/// A justification, as far as checking a proof needs it: it decodes from
/// bytes and verifies against an authority set. Whether the signatures in it
/// hold is for the finality engine to say.
pub trait Justification: Sized {
    /// The justification that `encoded` holds, or nothing where it holds
    /// none.
    fn decode(encoded: &Vec<u8>) -> Option<Self>;

    /// Whether the authorities of set `set_id` have signed this
    /// justification with enough weight; the reason where they have not.
    fn verify(&self, set_id: SetId, authorities: &AuthorityList) -> Result<(), ClientError>;
}

/// What happened while one proof was checked.
pub struct CheckRecord<J> {
    /// What the header format said of the headers in the proof.
    pub frames: Seq<Option<usize>>,
    /// The proof that was read, if one was.
    pub read: Option<FinalityProof>,
    /// The justification decoded from the proof, if one was.
    pub justification: Option<J>,
    /// The result of verifying that justification.
    pub verdict: Result<(), ClientError>,
}

/// `record` is what came of reading `remote_proof` with the header format
/// `H`, decoding the justification in it as a `J`, and verifying that
/// justification against the set `set_id` with `authorities`: each step
/// taken only where the one before it succeeded.
pub open spec fn recorded<H: HeaderFormat, J: Justification>(
    record: CheckRecord<J>,
    set_id: SetId,
    authorities: &AuthorityList,
    remote_proof: &Vec<u8>,
) -> bool {
    &&& framed_by::<H>(remote_proof, record.frames)
    &&& proof_view(record.read) == decoded(remote_proof@, record.frames)
    &&& record.read matches Some(read) ==> {
        &&& call_ensures(J::decode, (&read.justification,), record.justification)
        &&& record.justification matches Some(justification) ==> call_ensures(
            J::verify,
            (&justification, set_id, authorities),
            record.verdict,
        )
    }
}

/// What checking comes to: a proof that cannot be read is a bad
/// justification; a justification that does not decode is reported as such; a
/// justification that does not verify fails with the verifier's reason; and
/// a proof that passes all three is returned as it was read.
pub open spec fn verdict_on<J>(
    record: CheckRecord<J>,
    result: Result<FinalityProof, ClientError>,
) -> bool {
    match record.read {
        None => result matches Err(ClientError::BadJustification(reason)) && reason@
            == "failed to decode finality proof"@,
        Some(read) => match record.justification {
            None => result == Err::<FinalityProof, ClientError>(ClientError::JustificationDecode),
            Some(_) => match record.verdict {
                Err(error) => result == Err::<FinalityProof, ClientError>(error),
                Ok(_) => result == Ok::<FinalityProof, ClientError>(read),
            },
        },
    }
}

/// Checks the proof of finality in `remote_proof` against the authority set
/// `current_set_id` with the authorities `current_authorities`.
///
/// Returns the proof. Its headers are what the caller must validate and
/// import next, all of them or none: if one of them turns out invalid, all
/// are to be held invalid.
pub fn check_finality_proof<H: HeaderFormat, J: Justification>(
    current_set_id: SetId,
    current_authorities: AuthorityList,
    remote_proof: Vec<u8>,
) -> (result: Result<FinalityProof, ClientError>)
    ensures
        exists|record: CheckRecord<J>| #[trigger]
            recorded::<H, J>(record, current_set_id, &current_authorities, &remote_proof)
                && verdict_on(record, result),
{
    let read = match FinalityProof::decode::<H>(&remote_proof) {
        Some(read) => read,
        None => {
            proof {
                let frames = choose|frames: Seq<Option<usize>>| #[trigger]
                    framed_by::<H>(&remote_proof, frames) && decoded(remote_proof@, frames) is None;
                let record = CheckRecord::<J> {
                    frames,
                    read: None,
                    justification: arbitrary(),
                    verdict: arbitrary(),
                };
                assert(recorded::<H, J>(record, current_set_id, &current_authorities, &remote_proof));
            }
            return Err(ClientError::BadJustification("failed to decode finality proof".to_owned()));
        },
    };
    let ghost frames = choose|frames: Seq<Option<usize>>| #[trigger]
        framed_by::<H>(&remote_proof, frames) && Some(read@) == decoded(remote_proof@, frames);
    let decoded_justification = J::decode(&read.justification);
    let justification = match decoded_justification {
        Some(justification) => justification,
        None => {
            proof {
                let record = CheckRecord::<J> {
                    frames,
                    read: Some(read),
                    justification: None,
                    verdict: arbitrary(),
                };
                assert(recorded::<H, J>(record, current_set_id, &current_authorities, &remote_proof));
            }
            return Err(ClientError::JustificationDecode);
        },
    };
    let verdict = justification.verify(current_set_id, &current_authorities);
    proof {
        let record = CheckRecord::<J> {
            frames,
            read: Some(read),
            justification: Some(justification),
            verdict,
        };
        assert(recorded::<H, J>(record, current_set_id, &current_authorities, &remote_proof));
    }
    match verdict {
        Ok(_) => Ok(read),
        Err(error) => Err(error),
    }
}

/// A proof passes the check only if its justification, exactly as the proof
/// holds it, decoded and then verified against the set and the authorities
/// of the caller. Whether a justification that was tampered with can decode
/// and verify is thereby a matter of `J` alone.
pub proof fn lemma_accepted_proof_was_verified<H: HeaderFormat, J: Justification>(
    record: CheckRecord<J>,
    set_id: SetId,
    authorities: &AuthorityList,
    remote_proof: &Vec<u8>,
    result: Result<FinalityProof, ClientError>,
)
    requires
        recorded::<H, J>(record, set_id, authorities, remote_proof),
        verdict_on(record, result),
        result is Ok,
    ensures
        Some(result->Ok_0@) == decoded(remote_proof@, record.frames),
        record.justification matches Some(justification) && call_ensures(
            J::decode,
            (&(result->Ok_0).justification,),
            record.justification,
        ) && record.verdict is Ok && call_ensures(
            J::verify,
            (&justification, set_id, authorities),
            record.verdict,
        ),
{
}

} // verus!
