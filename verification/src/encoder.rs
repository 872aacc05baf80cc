//! The byte layout in which a proof is handed to the on-chain verifier.
//!
//! An encoded proof is the ABI tuple `(bytes, bytes32, bytes)` of the
//! selector-prefixed seal, the flattened image ID and the journal. An
//! envelope is the ABI tuple `(bytes, bytes)` of the attestation document and
//! the encoded proof.

use crate::abi::{
    byte_of, bytes_tail, encodable, encode_tokens, is_encodable, layout, lemma_layout_three,
    lemma_layout_two, padding, right_padded, values, word, AbiToken, AbiValue,
};
use vstd::prelude::*;
use vstd::slice::slice_to_vec;

verus! {

/// The proof a receipt carries, in the form the backend produced it.
#[derive(Debug)]
pub enum InnerReceipt {
    /// A chain of trace commitments, one per execution segment.
    Composite,
    /// A single recursion proof; constant size, but not pairing-friendly.
    Succinct,
    /// A compressed SNARK; the only form the on-chain verifier accepts.
    Groth16 { seal: Vec<u8> },
    /// No proof at all, as produced in development mode.
    Fake,
}

/// What one proving run returned: a proof and the guest's public output.
#[derive(Debug)]
pub struct Receipt {
    pub inner: InnerReceipt,
    pub journal: Vec<u8>,
}

/// Why a receipt could not be encoded.
#[derive(Debug, Clone, Copy, PartialEq, Eq)]
pub enum EncodeError {
    /// The receipt carries no compressed seal.
    MissingSeal,
    /// The encoding would be beyond the encoder's limits.
    TooLarge,
}

/// The words of an image ID as bytes: words in index order, each word
/// least significant byte first.
pub open spec fn flattened(words: Seq<u32>) -> Seq<u8> {
    Seq::new(4 * words.len(), |i: int| byte_of(words[i / 4], i % 4))
}

/// The length of a dynamic byte string's tail.
pub open spec fn tail_size(len: nat) -> nat {
    32 + len + padding(len)
}

/// The length of an encoded proof.
pub open spec fn proof_size(seal_len: nat, journal_len: nat) -> nat {
    96 + tail_size(seal_len) + tail_size(journal_len)
}

/// The length of an envelope.
pub open spec fn envelope_size(attestation_len: nat, proof_len: nat) -> nat {
    64 + tail_size(attestation_len) + tail_size(proof_len)
}

/// The encoded proof for a prefixed seal, a 32-byte image ID and a journal.
pub open spec fn proof_layout(seal: Seq<u8>, image_id: Seq<u8>, journal: Seq<u8>) -> Seq<u8> {
    word(96) + image_id + word((96 + tail_size(seal.len())) as u32) + bytes_tail(seal)
        + bytes_tail(journal)
}

/// The envelope for an attestation document and an encoded proof.
pub open spec fn envelope_layout(attestation: Seq<u8>, proof: Seq<u8>) -> Seq<u8> {
    word(64) + word((64 + tail_size(attestation.len())) as u32) + bytes_tail(attestation)
        + bytes_tail(proof)
}

/// The seal of a receipt, where it has one.
pub open spec fn seal_of(receipt: Receipt) -> Option<Seq<u8>> {
    match receipt.inner {
        InnerReceipt::Groth16 { seal } => Some(seal@),
        _ => None,
    }
}

/// Flattens an image ID into the 32 bytes the verifier hashes.
pub fn flatten_image_id(image_id: &[u32; 8]) -> (bytes: Vec<u8>)
    ensures
        bytes@ == flattened(image_id@),
        bytes@.len() == 32,
{
    let mut bytes: Vec<u8> = Vec::with_capacity(32);
    let mut i: usize = 0;
    while i < 8
        invariant
            i <= 8,
            image_id@.len() == 8,
            bytes@.len() == 4 * i,
            forall|k: int| 0 <= k < 4 * i ==> bytes@[k] == byte_of(image_id@[k / 4], k % 4),
        decreases 8 - i,
    {
        let w: u32 = image_id[i];
        bytes.push((w & 0xff) as u8);
        bytes.push(((w >> 8) & 0xff) as u8);
        bytes.push(((w >> 16) & 0xff) as u8);
        bytes.push(((w >> 24) & 0xff) as u8);
        i += 1;
    }
    assert(bytes@ =~= flattened(image_id@));
    bytes
}

/// Puts the verifier selector in front of a seal.
pub fn prefix_seal(selector: &[u8; 4], seal: &[u8]) -> (prefixed: Vec<u8>)
    ensures
        prefixed@ == selector@ + seal@,
{
    let mut prefixed: Vec<u8> = Vec::new();
    let mut i: usize = 0;
    while i < 4
        invariant
            i <= 4,
            selector@.len() == 4,
            prefixed@ == selector@.take(i as int),
        decreases 4 - i,
    {
        prefixed.push(selector[i]);
        i += 1;
        assert(prefixed@ =~= selector@.take(i as int));
    }
    assert(selector@.take(4) =~= selector@);
    prefixed.extend_from_slice(seal);
    prefixed
}

/// The tail length for a byte string of `len` bytes, where the length fits
/// a 32-bit length word.
fn tail_size_of(len: usize) -> (size: Option<u64>)
    ensures
        len <= u32::MAX ==> size == Some(tail_size(len as nat) as u64),
        len > u32::MAX ==> size is None,
        size is Some ==> size->0 <= 0x1_0000_0040,
{
    if len > 0xffff_ffff {
        None
    } else {
        let l: u64 = len as u64;
        let rem: u64 = l % 32;
        let pad: u64 = if rem == 0 {
            0
        } else {
            32 - rem
        };
        Some(32 + l + pad)
    }
}

/// Encodes a receipt for the verifier contract: the ABI tuple of the
/// selector-prefixed seal, the flattened image ID and the journal. Fails
/// where the receipt carries no compressed seal, and where the encoding
/// would be beyond the encoder's limits.
pub fn encode_proof(receipt: &Receipt, image_id: &[u32; 8], selector: &[u8; 4]) -> (encoded:
    Result<Vec<u8>, EncodeError>)
    ensures
        match seal_of(*receipt) {
            None => encoded == Err::<Vec<u8>, EncodeError>(EncodeError::MissingSeal),
            Some(seal) => if encodable(proof_size(4 + seal.len(), receipt.journal@.len())) {
                &&& encoded is Ok
                &&& encoded->Ok_0@ == proof_layout(
                    selector@ + seal,
                    flattened(image_id@),
                    receipt.journal@,
                )
            } else {
                encoded == Err::<Vec<u8>, EncodeError>(EncodeError::TooLarge)
            },
        },
{
    match &receipt.inner {
        InnerReceipt::Groth16 { seal } => {
            if seal.len() > 0xffff_ffff - 4 {
                return Err(EncodeError::TooLarge);
            }
            let seal_size = tail_size_of(seal.len() + 4);
            let journal_size = tail_size_of(receipt.journal.len());
            match (seal_size, journal_size) {
                (Some(s), Some(j)) => {
                    if !is_encodable(96 + s + j) {
                        return Err(EncodeError::TooLarge);
                    }
                },
                _ => {
                    return Err(EncodeError::TooLarge);
                },
            }
            let prefixed = prefix_seal(selector, seal.as_slice());
            let id = flatten_image_id(image_id);
            let journal = slice_to_vec(receipt.journal.as_slice());
            let mut tokens: Vec<AbiToken> = Vec::new();
            tokens.push(AbiToken::Bytes(prefixed));
            tokens.push(AbiToken::FixedBytes(id));
            tokens.push(AbiToken::Bytes(journal));
            proof {
                lemma_proof_layout(selector@ + seal@, flattened(image_id@), receipt.journal@);
                assert(values(tokens@) =~= seq![
                    AbiValue::Bytes(selector@ + seal@),
                    AbiValue::FixedBytes(flattened(image_id@)),
                    AbiValue::Bytes(receipt.journal@),
                ]);
            }
            Ok(encode_tokens(&tokens))
        },
        _ => Err(EncodeError::MissingSeal),
    }
}

/// Wraps an attestation document and its encoded proof for transport: the
/// ABI tuple of the two byte strings. Fails where the envelope would be
/// beyond the encoder's limits.
pub fn wrap(attestation: &[u8], proof: &[u8]) -> (envelope: Result<Vec<u8>, EncodeError>)
    ensures
        encodable(envelope_size(attestation@.len(), proof@.len())) ==> {
            &&& envelope is Ok
            &&& envelope->Ok_0@ == envelope_layout(attestation@, proof@)
        },
        !encodable(envelope_size(attestation@.len(), proof@.len())) ==> envelope == Err::<
            Vec<u8>,
            EncodeError,
        >(EncodeError::TooLarge),
{
    let attestation_size = tail_size_of(attestation.len());
    let proof_size = tail_size_of(proof.len());
    match (attestation_size, proof_size) {
        (Some(a), Some(p)) => {
            if !is_encodable(64 + a + p) {
                return Err(EncodeError::TooLarge);
            }
        },
        _ => {
            return Err(EncodeError::TooLarge);
        },
    }
    let mut tokens: Vec<AbiToken> = Vec::new();
    tokens.push(AbiToken::Bytes(slice_to_vec(attestation)));
    tokens.push(AbiToken::Bytes(slice_to_vec(proof)));
    proof {
        lemma_envelope_layout(attestation@, proof@);
        assert(values(tokens@) =~= seq![AbiValue::Bytes(attestation@), AbiValue::Bytes(proof@)]);
    }
    Ok(encode_tokens(&tokens))
}

/// The tuple layout of a proof's three fields is [`proof_layout`].
pub proof fn lemma_proof_layout(seal: Seq<u8>, image_id: Seq<u8>, journal: Seq<u8>)
    requires
        image_id.len() == 32,
    ensures
        layout(
            seq![AbiValue::Bytes(seal), AbiValue::FixedBytes(image_id), AbiValue::Bytes(journal)],
        ) == proof_layout(seal, image_id, journal),
        proof_layout(seal, image_id, journal).len() == proof_size(seal.len(), journal.len()),
{
    lemma_layout_three(
        AbiValue::Bytes(seal),
        AbiValue::FixedBytes(image_id),
        AbiValue::Bytes(journal),
    );
    assert(right_padded(image_id) =~= image_id);
}

/// The tuple layout of an envelope's two fields is [`envelope_layout`].
pub proof fn lemma_envelope_layout(attestation: Seq<u8>, proof: Seq<u8>)
    ensures
        layout(seq![AbiValue::Bytes(attestation), AbiValue::Bytes(proof)]) == envelope_layout(
            attestation,
            proof,
        ),
        envelope_layout(attestation, proof).len() == envelope_size(attestation.len(), proof.len()),
{
    lemma_layout_two(AbiValue::Bytes(attestation), AbiValue::Bytes(proof));
}

} // verus!
