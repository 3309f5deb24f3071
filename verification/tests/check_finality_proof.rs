use finality_proof::authorities::SetId;
use finality_proof::verification::{check_finality_proof, AuthorityId, AuthorityList, Justification};
use finality_proof::error::ClientError;
use finality_proof::wire::{BlockHash, FinalityProof, HeaderFormat};
use parity_scale_codec::{Decode, DecodeAll, Encode, Error, Input, Output};
use sp_finality_grandpa::{
    localized_payload, AuthorityId as GrandpaId, AuthorityPair, AuthoritySignature,
};
use sp_runtime::app_crypto::Pair;
use sp_runtime::generic;
use sp_runtime::traits::{BlakeTwo256, Header as HeaderT};
use std::convert::TryFrom;

type Header = generic::Header<u64, BlakeTwo256>;

fn header(number: u64) -> Header {
    let parent_hash = match number {
        0 => Default::default(),
        _ => header(number - 1).hash(),
    };
    Header::new(number, Default::default(), Default::default(), parent_hash, Default::default())
}

fn block_hash(header: &Header) -> BlockHash {
    header.hash().into()
}

struct Block;

impl HeaderFormat for Block {
    fn encoded_len(input: &Vec<u8>, start: usize) -> Option<usize> {
        let mut rest = input.get(start..)?;
        let before = rest.len();
        Header::decode(&mut rest).ok()?;
        Some(before - rest.len())
    }
}

/// The justification of the tests: a commit for a target in a round, with
/// the precommits of those who signed it.
#[derive(Debug, Clone, PartialEq)]
struct GrandpaJustification {
    round: u64,
    target_hash: BlockHash,
    target_number: u64,
    precommits: Vec<(AuthorityId, AuthoritySignature)>,
}

/// What an authority signs: its precommit for the target, localized to the
/// round and the set.
fn payload(round: u64, set_id: SetId, target_hash: &BlockHash, target_number: u64) -> Vec<u8> {
    let precommit_message = (1u8, target_hash, target_number);
    localized_payload(round, set_id, &precommit_message)
}

fn authority_id(pair: &AuthorityPair) -> AuthorityId {
    let public = pair.public();
    let bytes: &[u8] = public.as_ref();
    AuthorityId::try_from(bytes).unwrap()
}

fn alice() -> AuthorityPair {
    AuthorityPair::from_string("//Alice", None).unwrap()
}

fn bob() -> AuthorityPair {
    AuthorityPair::from_string("//Bob", None).unwrap()
}

impl GrandpaJustification {
    fn from_commit(
        round: u64,
        set_id: SetId,
        target_hash: BlockHash,
        target_number: u64,
        signers: &[AuthorityPair],
    ) -> Self {
        let signed = payload(round, set_id, &target_hash, target_number);
        let precommits =
            signers.iter().map(|pair| (authority_id(pair), pair.sign(&signed))).collect();
        GrandpaJustification { round, target_hash, target_number, precommits }
    }
}

impl Encode for GrandpaJustification {
    fn encode_to<T: Output + ?Sized>(&self, dest: &mut T) {
        self.round.encode_to(dest);
        self.target_hash.encode_to(dest);
        self.target_number.encode_to(dest);
        self.precommits.encode_to(dest);
    }
}

impl Decode for GrandpaJustification {
    fn decode<I: Input>(input: &mut I) -> Result<Self, Error> {
        Ok(GrandpaJustification {
            round: Decode::decode(input)?,
            target_hash: Decode::decode(input)?,
            target_number: Decode::decode(input)?,
            precommits: Decode::decode(input)?,
        })
    }
}

impl Justification for GrandpaJustification {
    fn decode(encoded: &Vec<u8>) -> Option<Self> {
        <GrandpaJustification as DecodeAll>::decode_all(&encoded[..]).ok()
    }

    fn verify(&self, set_id: SetId, authorities: &AuthorityList) -> Result<(), ClientError> {
        let signed = payload(self.round, set_id, &self.target_hash, self.target_number);
        let total: u64 = authorities.iter().map(|(_, weight)| *weight).sum();
        let mut weight_of_precommits: u64 = 0;
        for (id, signature) in &self.precommits {
            let weight = authorities
                .iter()
                .find(|(authority, _)| authority == id)
                .map(|(_, weight)| *weight)
                .ok_or_else(|| {
                    ClientError::BadJustification("invalid commit in grandpa justification".into())
                })?;
            let public = GrandpaId::decode(&mut &id[..]).map_err(|_| {
                ClientError::BadJustification("invalid commit in grandpa justification".into())
            })?;
            if !AuthorityPair::verify(signature, &signed, &public) {
                return Err(ClientError::BadJustification(
                    "invalid signature for precommit in grandpa justification".into(),
                ));
            }
            weight_of_precommits += weight;
        }
        if 3 * weight_of_precommits > 2 * total {
            Ok(())
        } else {
            Err(ClientError::BadJustification("invalid commit in grandpa justification".into()))
        }
    }
}

#[test]
fn finality_proof_check_fails_when_proof_decode_fails() {
    // When we can't decode proof from Vec<u8>
    check_finality_proof::<Block, GrandpaJustification>(1, vec![([3u8; 32], 1u64)], vec![42])
        .unwrap_err();
}

#[test]
fn finality_proof_check_fails_when_proof_is_empty() {
    // When decoded proof has zero length
    check_finality_proof::<Block, GrandpaJustification>(
        1,
        vec![([3u8; 32], 1u64)],
        Vec::<GrandpaJustification>::new().encode(),
    )
    .unwrap_err();
}

#[test]
fn finality_proof_check_works() {
    let round = 8;
    let set_id = 1;

    let target_hash = block_hash(&header(8));
    let target_number = 8;

    let grandpa_just =
        GrandpaJustification::from_commit(round, set_id, target_hash, target_number, &[alice()]);
    let auth = vec![(authority_id(&alice()), 1u64)];

    let finality_proof = FinalityProof {
        block: block_hash(&header(2)),
        justification: grandpa_just.encode(),
        unknown_headers: Vec::new(),
    };
    let proof = check_finality_proof::<Block, GrandpaJustification>(
        set_id,
        auth.clone(),
        finality_proof.encode(),
    )
    .unwrap();
    assert_eq!(proof, finality_proof);
}

#[test]
fn an_unreadable_proof_is_a_bad_justification() {
    let error =
        check_finality_proof::<Block, GrandpaJustification>(1, vec![(authority_id(&alice()), 1)], vec![42])
            .unwrap_err();
    assert_eq!(
        error,
        ClientError::BadJustification("failed to decode finality proof".to_string())
    );
}

#[test]
fn a_justification_that_does_not_decode_is_reported_as_such() {
    let finality_proof = FinalityProof {
        block: block_hash(&header(2)),
        justification: vec![1, 2, 3],
        unknown_headers: vec![header(3).encode()],
    };
    let error = check_finality_proof::<Block, GrandpaJustification>(
        1,
        vec![(authority_id(&alice()), 1)],
        finality_proof.encode(),
    )
    .unwrap_err();
    assert_eq!(error, ClientError::JustificationDecode);
}

#[test]
fn a_justification_for_another_set_fails_with_the_reason_of_the_verifier() {
    let target_hash = block_hash(&header(8));
    let justification = GrandpaJustification::from_commit(8, 1, target_hash, 8, &[alice()]);
    let finality_proof = FinalityProof {
        block: target_hash,
        justification: justification.encode(),
        unknown_headers: vec![header(7).encode(), header(8).encode()],
    };
    let error = check_finality_proof::<Block, GrandpaJustification>(
        2,
        vec![(authority_id(&alice()), 1)],
        finality_proof.encode(),
    )
    .unwrap_err();
    assert_eq!(
        error,
        ClientError::BadJustification(
            "invalid signature for precommit in grandpa justification".to_string()
        )
    );
}

#[test]
fn the_verifier_is_given_the_authorities_of_the_caller() {
    let target_hash = block_hash(&header(8));
    let justification = GrandpaJustification::from_commit(8, 1, target_hash, 8, &[alice()]);
    let finality_proof = FinalityProof {
        block: target_hash,
        justification: justification.encode(),
        unknown_headers: Vec::new(),
    };
    // Alice alone has not two thirds of the weight.
    let error = check_finality_proof::<Block, GrandpaJustification>(
        1,
        vec![(authority_id(&alice()), 1), (authority_id(&bob()), 1)],
        finality_proof.encode(),
    )
    .unwrap_err();
    assert_eq!(
        error,
        ClientError::BadJustification("invalid commit in grandpa justification".to_string())
    );
    // She has where her weight is three of four.
    check_finality_proof::<Block, GrandpaJustification>(
        1,
        vec![(authority_id(&alice()), 3), (authority_id(&bob()), 1)],
        finality_proof.encode(),
    )
    .unwrap();
}

#[test]
fn a_checked_proof_comes_back_with_its_headers() {
    let target_hash = block_hash(&header(8));
    let justification = GrandpaJustification::from_commit(8, 1, target_hash, 8, &[alice(), bob()]);
    let finality_proof = FinalityProof {
        block: target_hash,
        justification: justification.encode(),
        unknown_headers: vec![header(6).encode(), header(7).encode(), header(8).encode()],
    };
    let mut remote_proof = finality_proof.encode();
    // What follows the proof is not read.
    remote_proof.extend_from_slice(&[0xff, 0xff]);
    let proof = check_finality_proof::<Block, GrandpaJustification>(
        1,
        vec![(authority_id(&alice()), 1), (authority_id(&bob()), 1)],
        remote_proof,
    )
    .unwrap();
    assert_eq!(proof, finality_proof);
}

#[test]
fn a_tampered_justification_never_passes() {
    let alice = alice();
    let authorities = vec![(authority_id(&alice), 1u64)];
    let target_hash = block_hash(&header(8));
    let justification = GrandpaJustification::from_commit(8, 1, target_hash, 8, &[alice]);
    let encoded_justification = justification.encode();
    for position in 0..encoded_justification.len() {
        let mut tampered = encoded_justification.clone();
        tampered[position] ^= 0xff;
        let finality_proof = FinalityProof {
            block: target_hash,
            justification: tampered,
            unknown_headers: vec![header(8).encode()],
        };
        let result = check_finality_proof::<Block, GrandpaJustification>(
            1,
            authorities.clone(),
            finality_proof.encode(),
        );
        assert!(
            matches!(
                result,
                Err(ClientError::JustificationDecode) | Err(ClientError::BadJustification(_))
            ),
            "byte {} passed",
            position
        );
    }
    // Untouched, it passes.
    let finality_proof = FinalityProof {
        block: target_hash,
        justification: encoded_justification,
        unknown_headers: vec![header(8).encode()],
    };
    check_finality_proof::<Block, GrandpaJustification>(1, authorities, finality_proof.encode())
        .unwrap();
}
