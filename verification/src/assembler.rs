//! Proving that a block is final: the choice of the justification, the range
//! of headers that goes with it, and the assembly of the proof.
//!
//! The chain is read through a [`ChainBackend`]. What it answers is not for
//! this library to know in advance, so the contract of [`prove_finality`]
//! speaks of the answers that were given: there is a record of them, each
//! answer in it is one that the backend gave to the question put, and the
//! result is what [`outcome`] makes of that record.

use crate::authorities::{
    is_change_log,
    lemma_log_is_ordered,
    set_id_of,
    AuthoritySetChangeId,
    AuthoritySetChanges,
    SetId,
};
use crate::backend::{
    BestJustification,
    ChainBackend,
    EncodedJustification,
    GRANDPA_ENGINE_ID,
};
use crate::error::{ClientError, FinalityProofError};
use crate::wire::{encoded, header_bytes, BlockHash, EncodedHeader, FinalityProof, ProofData};
use vstd::prelude::*;

verus! {

/// The largest number of headers that a proof carries.
pub const MAX_UNKNOWN_HEADERS: usize = 100_000;

/// What the backend answered while one proof was assembled. A question that
/// was not put has no meaning here.
pub struct BackendReplies {
    /// The finalized tip.
    pub finalized_tip: u64,
    /// The answer to the question for the best stored justification.
    pub best: Result<Option<BestJustification>, ClientError>,
    /// The answer to the question for the justification stored at the last
    /// block of the governing set.
    pub stored: Result<Option<EncodedJustification>, ClientError>,
    /// The answers to the questions for headers, from the block after the
    /// requested one on, in order.
    pub headers: Seq<Result<EncodedHeader, ClientError>>,
    /// The answer to the question for the hash of the justified block.
    pub hash: Result<BlockHash, ClientError>,
}

/// The justification that proves `block`, and the number of the block F that
/// it justifies.
///
/// In the latest set that is the best stored justification and its target;
/// in a closed set it is the justification stored for the set's last block.
/// Where none is stored there is nothing to select, which is no failure.
/// Where the log cannot tell the set, the block cannot be proved.
pub open spec fn selected(replies: BackendReplies, changes: Seq<(SetId, u64)>, block: u64) -> Result<
    Option<(Seq<u8>, u64)>,
    FinalityProofError,
> {
    match set_id_of(changes, block) {
        AuthoritySetChangeId::Latest => match replies.best {
            Ok(Some(best)) => Ok(Some((best.justification@, best.target_number))),
            Ok(None) => Ok(None),
            Err(error) => Err(FinalityProofError::Client(error)),
        },
        AuthoritySetChangeId::InSet(_, last_block) => match replies.stored {
            Ok(Some(justification)) => Ok(Some((justification@, last_block))),
            Ok(None) => Ok(None),
            Err(error) => Err(FinalityProofError::Client(error)),
        },
        AuthoritySetChangeId::Unknown => Err(FinalityProofError::BlockNotInAuthoritySetChanges),
    }
}

/// The number of headers that lead from `block` to `target`: one for each
/// block after `block` up to and including `target`, and no more than the
/// cap.
pub open spec fn header_span(block: u64, target: u64) -> nat {
    if target <= block {
        0
    } else if target - block > MAX_UNKNOWN_HEADERS {
        MAX_UNKNOWN_HEADERS as nat
    } else {
        (target - block) as nat
    }
}

/// `headers` is a whole run of asking for `count` headers: it goes on as
/// long as each header is had, and ends early only with a failure.
pub open spec fn header_run(headers: Seq<Result<EncodedHeader, ClientError>>, count: nat) -> bool {
    &&& headers.len() <= count
    &&& forall|i: int| 0 <= i < headers.len() - 1 ==> (#[trigger] headers[i]) is Ok
    &&& headers.len() < count ==> headers.len() > 0 && headers.last() is Err
}

/// The headers in `headers`, each as its bytes.
pub open spec fn headers_had(headers: Seq<Result<EncodedHeader, ClientError>>) -> Seq<Seq<u8>> {
    Seq::new(headers.len(), |i: int| headers[i]->Ok_0@)
}

/// What proving `block` comes to, given the log and the backend's answers.
///
/// A block beyond the finalized tip is not yet final. A block whose set the
/// log cannot tell is not covered. Where no justification is stored there is
/// no proof, and no failure either. Otherwise the proof holds the hash of
/// the justified block F, the justification, and the headers of the blocks
/// after `block` up to F or up to the cap, and the result is its wire form.
/// A failure of the backend ends the run and is handed on as it came.
pub open spec fn outcome(replies: BackendReplies, changes: Seq<(SetId, u64)>, block: u64) -> Result<
    Option<Seq<u8>>,
    FinalityProofError,
> {
    if replies.finalized_tip < block {
        Err(FinalityProofError::BlockNotYetFinalized)
    } else {
        match selected(replies, changes, block) {
            Err(error) => Err(error),
            Ok(None) => Ok(None),
            Ok(Some((justification, target))) => {
                if replies.headers.len() > 0 && replies.headers.last() is Err {
                    Err(FinalityProofError::Client(replies.headers.last()->Err_0))
                } else {
                    match replies.hash {
                        Err(error) => Err(FinalityProofError::Client(error)),
                        Ok(hash) => Ok(
                            Some(
                                encoded(
                                    ProofData {
                                        block: hash@,
                                        justification,
                                        unknown_headers: headers_had(replies.headers),
                                    },
                                ),
                            ),
                        ),
                    }
                }
            },
        }
    }
}

/// `replies` is what `backend` answered while `block` was proved: the
/// finalized tip; if the block is not beyond it, the one justification that
/// the log calls for, the stored one asked for under the GRANDPA engine; if
/// there is one, the headers of the blocks after `block`, asked one by one
/// in ascending order up to the justified block or the cap, or up to the
/// first failure; and if none failed, the hash of the justified block.
pub open spec fn heard<B: ChainBackend>(
    backend: &B,
    replies: BackendReplies,
    changes: Seq<(SetId, u64)>,
    block: u64,
) -> bool {
    &&& call_ensures(B::finalized_tip, (backend,), replies.finalized_tip)
    &&& replies.finalized_tip >= block ==> {
        &&& match set_id_of(changes, block) {
            AuthoritySetChangeId::Latest => call_ensures(
                B::best_stored_justification,
                (backend,),
                replies.best,
            ),
            AuthoritySetChangeId::InSet(_, last_block) => call_ensures(
                B::justification_for,
                (backend, last_block, GRANDPA_ENGINE_ID),
                replies.stored,
            ),
            AuthoritySetChangeId::Unknown => true,
        }
        &&& selected(replies, changes, block) matches Ok(Some((_, target))) ==> {
            &&& header_run(replies.headers, header_span(block, target))
            &&& forall|i: int|
                0 <= i < replies.headers.len() ==> call_ensures(
                    B::header,
                    (backend, (block + 1 + i) as u64),
                    #[trigger] replies.headers[i],
                )
            &&& !(replies.headers.len() > 0 && replies.headers.last() is Err) ==> call_ensures(
                B::hash_of,
                (backend, target),
                replies.hash,
            )
        }
    }
}

/// The view of a result of proving: the proof as a byte sequence.
pub open spec fn result_view(result: Result<Option<Vec<u8>>, FinalityProofError>) -> Result<
    Option<Seq<u8>>,
    FinalityProofError,
> {
    match result {
        Ok(Some(bytes)) => Ok(Some(bytes@)),
        Ok(None) => Ok(None),
        Err(error) => Err(error),
    }
}

/// Asks `backend` for the justification that the log calls for. With the
/// justification comes the number of the block that it justifies.
fn select_justification<B: ChainBackend>(backend: &B, set: AuthoritySetChangeId) -> (out: (
    Result<Option<(Vec<u8>, u64)>, FinalityProofError>,
    Ghost<Result<Option<BestJustification>, ClientError>>,
    Ghost<Result<Option<EncodedJustification>, ClientError>>,
))
    ensures
        match set {
            AuthoritySetChangeId::Latest => {
                &&& call_ensures(B::best_stored_justification, (backend,), out.1@)
                &&& match out.1@ {
                    Ok(Some(best)) => out.0 matches Ok(Some((bytes, target))) && bytes@
                        == best.justification@ && target == best.target_number,
                    Ok(None) => out.0 == Ok::<Option<(Vec<u8>, u64)>, FinalityProofError>(None),
                    Err(error) => out.0 == Err::<Option<(Vec<u8>, u64)>, FinalityProofError>(
                        FinalityProofError::Client(error),
                    ),
                }
            },
            AuthoritySetChangeId::InSet(_, last_block) => {
                &&& call_ensures(
                    B::justification_for,
                    (backend, last_block, GRANDPA_ENGINE_ID),
                    out.2@,
                )
                &&& match out.2@ {
                    Ok(Some(stored)) => out.0 matches Ok(Some((bytes, target))) && bytes@
                        == stored@ && target == last_block,
                    Ok(None) => out.0 == Ok::<Option<(Vec<u8>, u64)>, FinalityProofError>(None),
                    Err(error) => out.0 == Err::<Option<(Vec<u8>, u64)>, FinalityProofError>(
                        FinalityProofError::Client(error),
                    ),
                }
            },
            AuthoritySetChangeId::Unknown => out.0 == Err::<
                Option<(Vec<u8>, u64)>,
                FinalityProofError,
            >(FinalityProofError::BlockNotInAuthoritySetChanges),
        },
        out.0 matches Ok(Some((bytes, _))) ==> bytes@.len() <= u32::MAX,
{
    match set {
        AuthoritySetChangeId::Latest => {
            let reply = backend.best_stored_justification();
            let ghost said = reply;
            let found = match reply {
                Ok(Some(best)) => Ok(Some((best.justification.into_bytes(), best.target_number))),
                Ok(None) => Ok(None),
                Err(error) => Err(FinalityProofError::Client(error)),
            };
            (found, Ghost(said), Ghost(arbitrary()))
        },
        AuthoritySetChangeId::InSet(_, last_block) => {
            let reply = backend.justification_for(last_block, GRANDPA_ENGINE_ID);
            let ghost said = reply;
            let found = match reply {
                Ok(Some(stored)) => Ok(Some((stored.into_bytes(), last_block))),
                Ok(None) => Ok(None),
                Err(error) => Err(FinalityProofError::Client(error)),
            };
            (found, Ghost(arbitrary()), Ghost(said))
        },
        AuthoritySetChangeId::Unknown => (
            Err(FinalityProofError::BlockNotInAuthoritySetChanges),
            Ghost(arbitrary()),
            Ghost(arbitrary()),
        ),
    }
}

/// Collects the headers of the blocks after `block` up to and including
/// `target`, earliest first, and stops at the cap or at the first header
/// that the backend fails to give.
fn collect_headers<B: ChainBackend>(backend: &B, block: u64, target: u64) -> (out: (
    Result<Vec<EncodedHeader>, ClientError>,
    Ghost<Seq<Result<EncodedHeader, ClientError>>>,
))
    ensures
        header_run(out.1@, header_span(block, target)),
        forall|i: int|
            0 <= i < out.1@.len() ==> call_ensures(
                B::header,
                (backend, (block + 1 + i) as u64),
                #[trigger] out.1@[i],
            ),
        match out.0 {
            Ok(headers) => {
                &&& !(out.1@.len() > 0 && out.1@.last() is Err)
                &&& header_bytes(headers@) == headers_had(out.1@)
                &&& headers@.len() <= MAX_UNKNOWN_HEADERS
            },
            Err(error) => out.1@.len() > 0 && out.1@.last() == Err::<EncodedHeader, ClientError>(
                error,
            ),
        },
{
    let ghost span = header_span(block, target);
    let ghost mut replies: Seq<Result<EncodedHeader, ClientError>> = Seq::empty();
    let mut headers: Vec<EncodedHeader> = Vec::new();
    let mut current: u64 = block;
    while current < target && headers.len() < MAX_UNKNOWN_HEADERS
        invariant
            span == header_span(block, target),
            current == block + headers@.len(),
            headers@.len() <= span,
            replies.len() == headers@.len(),
            forall|i: int| 0 <= i < replies.len() ==> (#[trigger] replies[i]) is Ok,
            forall|i: int|
                0 <= i < replies.len() ==> call_ensures(
                    B::header,
                    (backend, (block + 1 + i) as u64),
                    #[trigger] replies[i],
                ),
            forall|i: int|
                0 <= i < replies.len() ==> (#[trigger] headers@[i])@ == replies[i]->Ok_0@,
        decreases target - current,
    {
        current = current + 1;
        let reply = backend.header(current);
        proof {
            replies = replies.push(reply);
        }
        match reply {
            Ok(header) => {
                headers.push(header);
            },
            Err(error) => {
                return (Err(error), Ghost(replies));
            },
        }
    }
    assert(header_bytes(headers@) =~= headers_had(replies));
    (Ok(headers), Ghost(replies))
}

/// Proves that block `block` is final, from what `backend` holds and the log
/// `authority_set_changes` records.
///
/// The result is the encoded proof, or nothing where no justification is
/// stored that could prove the block, or the failure: exactly what
/// [`outcome`] makes of the backend's answers.
pub fn prove_finality<B: ChainBackend>(
    backend: &B,
    authority_set_changes: AuthoritySetChanges,
    block: u64,
) -> (result: Result<Option<Vec<u8>>, FinalityProofError>)
    ensures
        exists|replies: BackendReplies| #[trigger]
            heard(backend, replies, authority_set_changes@, block) && result_view(result)
                == outcome(replies, authority_set_changes@, block),
{
    let ghost changes = authority_set_changes@;
    let finalized_tip = backend.finalized_tip();
    if finalized_tip < block {
        proof {
            let replies = BackendReplies {
                finalized_tip,
                best: arbitrary(),
                stored: arbitrary(),
                headers: arbitrary(),
                hash: arbitrary(),
            };
            assert(heard(backend, replies, changes, block));
        }
        return Err(FinalityProofError::BlockNotYetFinalized);
    }
    let set = authority_set_changes.get_set_id(block);
    let (selection, Ghost(best), Ghost(stored)) = select_justification(backend, set);
    let (justification, target) = match selection {
        Ok(Some(found)) => found,
        Ok(None) => {
            proof {
                let replies = BackendReplies {
                    finalized_tip,
                    best,
                    stored,
                    headers: arbitrary(),
                    hash: arbitrary(),
                };
                assert(heard(backend, replies, changes, block));
            }
            return Ok(None);
        },
        Err(error) => {
            proof {
                let replies = BackendReplies {
                    finalized_tip,
                    best,
                    stored,
                    headers: arbitrary(),
                    hash: arbitrary(),
                };
                assert(heard(backend, replies, changes, block));
            }
            return Err(error);
        },
    };
    let (collected, Ghost(headers)) = collect_headers(backend, block, target);
    let unknown_headers = match collected {
        Ok(unknown_headers) => unknown_headers,
        Err(error) => {
            proof {
                let replies = BackendReplies {
                    finalized_tip,
                    best,
                    stored,
                    headers,
                    hash: arbitrary(),
                };
                assert(heard(backend, replies, changes, block));
            }
            return Err(FinalityProofError::Client(error));
        },
    };
    let hash = backend.hash_of(target);
    proof {
        let replies = BackendReplies { finalized_tip, best, stored, headers, hash };
        assert(heard(backend, replies, changes, block));
    }
    match hash {
        Ok(block) => {
            let finality_proof = FinalityProof { block, justification, unknown_headers };
            Ok(Some(finality_proof.encode()))
        },
        Err(error) => Err(FinalityProofError::Client(error)),
    }
}

/// A block beyond the finalized tip is not yet final, whatever the log
/// records and whatever else the backend holds.
pub proof fn lemma_block_beyond_tip(replies: BackendReplies, changes: Seq<(SetId, u64)>, block: u64)
    requires
        block > replies.finalized_tip,
    ensures
        outcome(replies, changes, block) == Err::<Option<Seq<u8>>, FinalityProofError>(
            FinalityProofError::BlockNotYetFinalized,
        ),
{
}

/// A finalized block that falls into a gap of the log is not covered: the
/// log is empty, or its first entry is not the genesis set and the block is
/// no later than that entry's last block.
pub proof fn lemma_gap_is_detected(replies: BackendReplies, changes: Seq<(SetId, u64)>, block: u64)
    requires
        is_change_log(changes),
        block <= replies.finalized_tip,
        changes.len() == 0 || (changes[0].0 != 0 && block <= changes[0].1),
    ensures
        set_id_of(changes, block) == AuthoritySetChangeId::Unknown,
        outcome(replies, changes, block) == Err::<Option<Seq<u8>>, FinalityProofError>(
            FinalityProofError::BlockNotInAuthoritySetChanges,
        ),
{
    lemma_log_is_ordered(changes);
}

/// A finalized block for which the justification that the log calls for is
/// not stored has no proof, and that is no failure.
pub proof fn lemma_no_justification_is_absent(
    replies: BackendReplies,
    changes: Seq<(SetId, u64)>,
    block: u64,
)
    requires
        block <= replies.finalized_tip,
        match set_id_of(changes, block) {
            AuthoritySetChangeId::Latest => replies.best == Ok::<
                Option<BestJustification>,
                ClientError,
            >(None),
            AuthoritySetChangeId::InSet(_, _) => replies.stored == Ok::<
                Option<EncodedJustification>,
                ClientError,
            >(None),
            AuthoritySetChangeId::Unknown => false,
        },
    ensures
        outcome(replies, changes, block) == Ok::<Option<Seq<u8>>, FinalityProofError>(None),
{
}

/// A proof of block B that resolves to the justified block F is the wire
/// form of: the hash that the backend gave for F, the selected
/// justification, and the headers that the backend gave for the blocks
/// B + 1, B + 2, ... in this order, up to F. There are F - B of them, or as
/// many as the cap allows where F - B is more.
pub proof fn lemma_header_range<B: ChainBackend>(
    backend: &B,
    replies: BackendReplies,
    changes: Seq<(SetId, u64)>,
    block: u64,
)
    requires
        heard(backend, replies, changes, block),
        outcome(replies, changes, block) matches Ok(Some(_)),
    ensures
        selected(replies, changes, block) matches Ok(Some((justification, target))) && {
            &&& replies.hash matches Ok(hash) && call_ensures(B::hash_of, (backend, target), replies.hash)
                && outcome(replies, changes, block) == Ok::<Option<Seq<u8>>, FinalityProofError>(
                Some(
                    encoded(
                        ProofData {
                            block: hash@,
                            justification,
                            unknown_headers: headers_had(replies.headers),
                        },
                    ),
                ),
            )
            &&& headers_had(replies.headers).len() == header_span(block, target)
            &&& block <= target <= block + MAX_UNKNOWN_HEADERS ==> headers_had(replies.headers).len()
                == target - block
            &&& forall|i: int|
                0 <= i < header_span(block, target) ==> (#[trigger] replies.headers[i]) is Ok
                    && headers_had(replies.headers)[i] == replies.headers[i]->Ok_0@
                    && call_ensures(B::header, (backend, (block + 1 + i) as u64), replies.headers[i])
        },
{
}

} // verus!
