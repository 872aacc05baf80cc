//! Reading encoded proofs and envelopes back into their fields.
//!
//! The decoders are strict: they accept exactly the byte strings that the
//! encoder can produce, so that decoding is the inverse of encoding and
//! nothing else decodes to anything.

use crate::abi::{bytes_tail, lemma_word_injective, padding, word};
use crate::encoder::{envelope_layout, envelope_size, proof_layout, proof_size, tail_size};
use vstd::prelude::*;
use vstd::slice::{slice_subrange, slice_to_vec};

verus! {

/// The fields of an encoded proof.
#[derive(Debug)]
pub struct DecodedProof {
    /// The selector followed by the seal.
    pub seal: Vec<u8>,
    /// The flattened image ID, 32 bytes.
    pub image_id: Vec<u8>,
    pub journal: Vec<u8>,
}

/// The fields of an envelope.
#[derive(Debug)]
pub struct DecodedEnvelope {
    pub attestation: Vec<u8>,
    pub proof: Vec<u8>,
}

/// The tail of `bytes` stands in `data` at `at`.
pub open spec fn tail_at(data: Seq<u8>, at: int, bytes: Seq<u8>) -> bool {
    &&& bytes.len() <= u32::MAX
    &&& 0 <= at
    &&& at + tail_size(bytes.len()) <= data.len()
    &&& data.subrange(at, at + tail_size(bytes.len())) == bytes_tail(bytes)
}

/// What [`tail_at`] says of `data`, piece by piece.
pub open spec fn tail_pieces(data: Seq<u8>, at: int, bytes: Seq<u8>) -> bool {
    &&& bytes.len() <= u32::MAX
    &&& 0 <= at
    &&& at + 32 + bytes.len() + padding(bytes.len()) <= data.len()
    &&& data.subrange(at, at + 32) == word(bytes.len() as u32)
    &&& data.subrange(at + 32, at + 32 + bytes.len()) == bytes
    &&& forall|k: int|
        0 <= k < padding(bytes.len()) ==> #[trigger] data[at + 32 + bytes.len() + k] == 0
}

/// `data` is the encoded proof of the three fields, and short enough for
/// 32-bit offsets.
pub open spec fn is_proof_encoding(
    data: Seq<u8>,
    seal: Seq<u8>,
    image_id: Seq<u8>,
    journal: Seq<u8>,
) -> bool {
    &&& image_id.len() == 32
    &&& proof_size(seal.len(), journal.len()) <= u32::MAX
    &&& data == proof_layout(seal, image_id, journal)
}

/// What [`is_proof_encoding`] says of `data`, piece by piece.
pub open spec fn proof_pieces(
    data: Seq<u8>,
    seal: Seq<u8>,
    image_id: Seq<u8>,
    journal: Seq<u8>,
) -> bool {
    &&& data.len() == proof_size(seal.len(), journal.len())
    &&& data.len() <= u32::MAX
    &&& data.subrange(0, 32) == word(96)
    &&& data.subrange(32, 64) == image_id
    &&& data.subrange(64, 96) == word((96 + tail_size(seal.len())) as u32)
    &&& tail_at(data, 96, seal)
    &&& tail_at(data, (96 + tail_size(seal.len())) as int, journal)
}

/// `data` is the envelope of the two fields, and short enough for 32-bit
/// offsets.
pub open spec fn is_envelope_encoding(data: Seq<u8>, attestation: Seq<u8>, proof: Seq<u8>) -> bool {
    &&& envelope_size(attestation.len(), proof.len()) <= u32::MAX
    &&& data == envelope_layout(attestation, proof)
}

/// What [`is_envelope_encoding`] says of `data`, piece by piece.
pub open spec fn envelope_pieces(data: Seq<u8>, attestation: Seq<u8>, proof: Seq<u8>) -> bool {
    &&& data.len() == envelope_size(attestation.len(), proof.len())
    &&& data.len() <= u32::MAX
    &&& data.subrange(0, 32) == word(64)
    &&& data.subrange(32, 64) == word((64 + tail_size(attestation.len())) as u32)
    &&& tail_at(data, 64, attestation)
    &&& tail_at(data, (64 + tail_size(attestation.len())) as int, proof)
}

/// A tail in place is a length word, the bytes, and zeros.
pub proof fn lemma_tail_pieces(data: Seq<u8>, at: int, bytes: Seq<u8>)
    ensures
        tail_at(data, at, bytes) <==> tail_pieces(data, at, bytes),
{
    let n = bytes.len();
    let size = tail_size(n);
    if tail_at(data, at, bytes) {
        let t = bytes_tail(bytes);
        let whole = data.subrange(at, at + size);
        let first = data.subrange(at, at + 32);
        let body = data.subrange(at + 32, at + 32 + n);
        assert forall|k: int| 0 <= k < 32 implies #[trigger] first[k] == word(n as u32)[k] by {
            assert(whole[k] == t[k]);
        };
        assert(first =~= word(n as u32));
        assert forall|k: int| 0 <= k < n implies #[trigger] body[k] == bytes[k] by {
            assert(whole[32 + k] == t[32 + k]);
        };
        assert(body =~= bytes);
        assert forall|k: int| 0 <= k < padding(n) implies #[trigger] data[at + 32 + n + k]
            == 0 by {
            assert(whole[32 + n + k] == t[32 + n + k]);
        };
    }
    if tail_pieces(data, at, bytes) {
        let t = bytes_tail(bytes);
        let whole = data.subrange(at, at + size);
        assert forall|k: int| 0 <= k < size implies #[trigger] whole[k] == t[k] by {
            if k < 32 {
                assert(data.subrange(at, at + 32)[k] == data[at + k]);
            } else if k < 32 + n {
                assert(data.subrange(at + 32, at + 32 + n)[k - 32] == data[at + k]);
            } else {
                assert(data[at + 32 + n + (k - 32 - n)] == 0);
            }
        };
        assert(whole =~= t);
    }
}

/// At one place there stands the tail of at most one byte string.
pub proof fn lemma_tail_unique(data: Seq<u8>, at: int, a: Seq<u8>, b: Seq<u8>)
    requires
        tail_at(data, at, a),
        tail_at(data, at, b),
    ensures
        a == b,
{
    lemma_tail_pieces(data, at, a);
    lemma_tail_pieces(data, at, b);
    lemma_word_injective(a.len() as u32, b.len() as u32);
}

/// An encoded proof is its two fixed words, the image ID and two tails.
pub proof fn lemma_proof_pieces(
    data: Seq<u8>,
    seal: Seq<u8>,
    image_id: Seq<u8>,
    journal: Seq<u8>,
)
    requires
        image_id.len() == 32,
        seal.len() <= u32::MAX,
        journal.len() <= u32::MAX,
    ensures
        is_proof_encoding(data, seal, image_id, journal) <==> proof_pieces(
            data,
            seal,
            image_id,
            journal,
        ),
{
    let mid = 96 + tail_size(seal.len());
    let full = proof_layout(seal, image_id, journal);
    assert(full.len() == proof_size(seal.len(), journal.len()));
    assert(full.subrange(0, 32) =~= word(96));
    assert(full.subrange(32, 64) =~= image_id);
    assert(full.subrange(64, 96) =~= word(mid as u32));
    assert(full.subrange(96, mid as int) =~= bytes_tail(seal));
    assert(full.subrange(mid as int, full.len() as int) =~= bytes_tail(journal));
    if proof_pieces(data, seal, image_id, journal) {
        assert forall|k: int| 0 <= k < data.len() implies #[trigger] data[k] == full[k] by {
            if k < 32 {
                assert(data.subrange(0, 32)[k] == data[k]);
            } else if k < 64 {
                assert(data.subrange(32, 64)[k - 32] == data[k]);
            } else if k < 96 {
                assert(data.subrange(64, 96)[k - 64] == data[k]);
            } else if k < mid {
                assert(data.subrange(96, mid as int)[k - 96] == data[k]);
            } else {
                assert(data.subrange(mid as int, data.len() as int)[k - mid] == data[k]);
            }
        };
        assert(data =~= full);
    }
}

/// An envelope is its two offset words and two tails.
pub proof fn lemma_envelope_pieces(data: Seq<u8>, attestation: Seq<u8>, proof: Seq<u8>)
    requires
        attestation.len() <= u32::MAX,
        proof.len() <= u32::MAX,
    ensures
        is_envelope_encoding(data, attestation, proof) <==> envelope_pieces(
            data,
            attestation,
            proof,
        ),
{
    let mid = 64 + tail_size(attestation.len());
    let full = envelope_layout(attestation, proof);
    assert(full.len() == envelope_size(attestation.len(), proof.len()));
    assert(full.subrange(0, 32) =~= word(64));
    assert(full.subrange(32, 64) =~= word(mid as u32));
    assert(full.subrange(64, mid as int) =~= bytes_tail(attestation));
    assert(full.subrange(mid as int, full.len() as int) =~= bytes_tail(proof));
    if envelope_pieces(data, attestation, proof) {
        assert forall|k: int| 0 <= k < data.len() implies #[trigger] data[k] == full[k] by {
            if k < 32 {
                assert(data.subrange(0, 32)[k] == data[k]);
            } else if k < 64 {
                assert(data.subrange(32, 64)[k - 32] == data[k]);
            } else if k < mid {
                assert(data.subrange(64, mid as int)[k - 64] == data[k]);
            } else {
                assert(data.subrange(mid as int, data.len() as int)[k - mid] == data[k]);
            }
        };
        assert(data =~= full);
    }
}

/// The fields that `data` is the encoded proof of, if it is one.
pub open spec fn proof_fields(data: Seq<u8>) -> Option<(Seq<u8>, Seq<u8>, Seq<u8>)> {
    if exists|f: (Seq<u8>, Seq<u8>, Seq<u8>)| #[trigger] is_proof_encoding(data, f.0, f.1, f.2) {
        Some(choose|f: (Seq<u8>, Seq<u8>, Seq<u8>)| #[trigger] is_proof_encoding(data, f.0, f.1, f.2))
    } else {
        None
    }
}

/// The fields that `data` is the envelope of, if it is one.
pub open spec fn envelope_fields(data: Seq<u8>) -> Option<(Seq<u8>, Seq<u8>)> {
    if exists|f: (Seq<u8>, Seq<u8>)| #[trigger] is_envelope_encoding(data, f.0, f.1) {
        Some(choose|f: (Seq<u8>, Seq<u8>)| #[trigger] is_envelope_encoding(data, f.0, f.1))
    } else {
        None
    }
}

/// No byte string is the encoded proof of two different triples of fields.
pub proof fn lemma_proof_encoding_unique(
    data: Seq<u8>,
    seal: Seq<u8>,
    image_id: Seq<u8>,
    journal: Seq<u8>,
    seal2: Seq<u8>,
    image_id2: Seq<u8>,
    journal2: Seq<u8>,
)
    requires
        is_proof_encoding(data, seal, image_id, journal),
        is_proof_encoding(data, seal2, image_id2, journal2),
    ensures
        seal == seal2,
        image_id == image_id2,
        journal == journal2,
{
    lemma_proof_pieces(data, seal, image_id, journal);
    lemma_proof_pieces(data, seal2, image_id2, journal2);
    lemma_tail_unique(data, 96, seal, seal2);
    lemma_tail_unique(data, (96 + tail_size(seal.len())) as int, journal, journal2);
}

/// No byte string is the envelope of two different pairs of fields.
pub proof fn lemma_envelope_encoding_unique(
    data: Seq<u8>,
    attestation: Seq<u8>,
    proof: Seq<u8>,
    attestation2: Seq<u8>,
    proof2: Seq<u8>,
)
    requires
        is_envelope_encoding(data, attestation, proof),
        is_envelope_encoding(data, attestation2, proof2),
    ensures
        attestation == attestation2,
        proof == proof2,
{
    lemma_envelope_pieces(data, attestation, proof);
    lemma_envelope_pieces(data, attestation2, proof2);
    lemma_tail_unique(data, 64, attestation, attestation2);
    lemma_tail_unique(data, (64 + tail_size(attestation.len())) as int, proof, proof2);
}

/// Decoding is the exact inverse of encoding: the fields of an encoded proof
/// are the prefixed seal, the image ID and the journal it was built from.
pub proof fn lemma_proof_round_trip(seal: Seq<u8>, image_id: Seq<u8>, journal: Seq<u8>)
    requires
        image_id.len() == 32,
        proof_size(seal.len(), journal.len()) <= u32::MAX,
    ensures
        proof_fields(proof_layout(seal, image_id, journal)) == Some((seal, image_id, journal)),
{
    let data = proof_layout(seal, image_id, journal);
    let fields = (seal, image_id, journal);
    assert(is_proof_encoding(data, fields.0, fields.1, fields.2));
    let found = proof_fields(data)->0;
    lemma_proof_encoding_unique(data, seal, image_id, journal, found.0, found.1, found.2);
    assert(found =~= fields);
}

/// Unwrapping is the exact inverse of wrapping: the fields of an envelope are
/// the attestation document and the encoded proof it was built from.
pub proof fn lemma_envelope_round_trip(attestation: Seq<u8>, proof: Seq<u8>)
    requires
        envelope_size(attestation.len(), proof.len()) <= u32::MAX,
    ensures
        envelope_fields(envelope_layout(attestation, proof)) == Some((attestation, proof)),
{
    let data = envelope_layout(attestation, proof);
    let fields = (attestation, proof);
    assert(is_envelope_encoding(data, fields.0, fields.1));
    let found = envelope_fields(data)->0;
    lemma_envelope_encoding_unique(data, attestation, proof, found.0, found.1);
    assert(found =~= fields);
}

/// Reads the number held by the word that starts at `at`: the one number
/// whose word stands there, if there is one.
fn read_word(data: &[u8], at: usize) -> (number: Option<u32>)
    requires
        at + 32 <= data@.len(),
    ensures
        number matches Some(n) ==> data@.subrange(at as int, at + 32) == word(n),
        forall|n: u32| data@.subrange(at as int, at + 32) == #[trigger] word(n) ==> number == Some(n),
{
    let ghost found = data@.subrange(at as int, at + 32);
    let total: usize = data.len();
    let mut i: usize = 0;
    while i < 28
        invariant
            i <= 28,
            total == data@.len(),
            at + 32 <= data@.len(),
            found == data@.subrange(at as int, at + 32),
            forall|k: int| 0 <= k < i ==> found[k] == 0,
        decreases 28 - i,
    {
        if data[at + i] != 0 {
            proof {
                assert(found[i as int] != 0);
                assert forall|n: u32| found == #[trigger] word(n) implies false by {
                    assert(word(n)[i as int] == 0);
                };
            }
            return None;
        }
        assert(found[i as int] == 0);
        i += 1;
    }
    let b3: u8 = data[at + 28];
    let b2: u8 = data[at + 29];
    let b1: u8 = data[at + 30];
    let b0: u8 = data[at + 31];
    let n: u32 = ((b3 as u32) << 24) | ((b2 as u32) << 16) | ((b1 as u32) << 8) | (b0 as u32);
    proof {
        assert(((n >> 24) & 0xff) as u8 == b3 && ((n >> 16) & 0xff) as u8 == b2 && ((n >> 8)
            & 0xff) as u8 == b1 && (n & 0xff) as u8 == b0) by (bit_vector)
            requires
                n == ((b3 as u32) << 24) | ((b2 as u32) << 16) | ((b1 as u32) << 8) | (b0 as u32),
        ;
        assert(found[28] == b3 && found[29] == b2 && found[30] == b1 && found[31] == b0);
        assert(found =~= word(n));
        assert forall|m: u32| found == #[trigger] word(m) implies m == n by {
            lemma_word_injective(m, n);
        };
    }
    Some(n)
}

/// Reads the byte string whose tail starts at `at`, and says where the tail
/// ends: the one byte string whose tail stands there, if there is one.
fn read_tail(data: &[u8], at: usize) -> (read: Option<(Vec<u8>, usize)>)
    requires
        at <= data@.len(),
    ensures
        read matches Some((bytes, end)) ==> tail_at(data@, at as int, bytes@) && end == at
            + tail_size(bytes@.len()),
        forall|b: Seq<u8>| #[trigger]
            tail_at(data@, at as int, b) ==> read is Some && read.unwrap().0@ == b,
{
    proof {
        assert forall|b: Seq<u8>| #[trigger] tail_at(data@, at as int, b) implies tail_pieces(
            data@,
            at as int,
            b,
        ) by {
            lemma_tail_pieces(data@, at as int, b);
        };
    }
    if data.len() - at < 32 {
        return None;
    }
    let n = match read_word(data, at) {
        Some(n) => n,
        None => {
            return None;
        },
    };
    let len: usize = n as usize;
    let rest: usize = data.len() - at - 32;
    if rest < len {
        return None;
    }
    let pad: usize = (32 - len % 32) % 32;
    if rest - len < pad {
        return None;
    }
    let start: usize = at + 32;
    let mut k: usize = 0;
    let total: usize = data.len();
    while k < pad
        invariant
            k <= pad,
            total == data@.len(),
            start + len + pad <= data@.len(),
            forall|b: Seq<u8>| #[trigger]
                tail_at(data@, at as int, b) ==> tail_pieces(data@, at as int, b),
            start == at + 32,
            pad == padding(len as nat),
            data@.subrange(at as int, at + 32) == word(len as u32),
            len <= u32::MAX,
            forall|j: int| 0 <= j < k ==> #[trigger] data@[start + len + j] == 0,
        decreases pad - k,
    {
        if data[start + len + k] != 0 {
            proof {
                assert forall|b: Seq<u8>| #[trigger] tail_at(data@, at as int, b) implies false by {
                    lemma_word_injective(b.len() as u32, len as u32);
                    assert(data@[at + 32 + b.len() + k] == 0);
                };
            }
            return None;
        }
        k += 1;
    }
    let bytes = slice_to_vec(slice_subrange(data, start, start + len));
    proof {
        lemma_tail_pieces(data@, at as int, bytes@);
        assert forall|b: Seq<u8>| #[trigger] tail_at(data@, at as int, b) implies bytes@ == b by {
            lemma_word_injective(b.len() as u32, len as u32);
        };
    }
    Some((bytes, start + len + pad))
}

/// Decodes an encoded proof into its three fields. Succeeds on exactly the
/// byte strings that are the encoding of some three fields, and returns
/// those fields.
pub fn decode_proof(data: &[u8]) -> (decoded: Option<DecodedProof>)
    ensures
        match decoded {
            Some(d) => proof_fields(data@) == Some((d.seal@, d.image_id@, d.journal@)),
            None => proof_fields(data@) is None,
        },
        decoded matches Some(d) ==> is_proof_encoding(data@, d.seal@, d.image_id@, d.journal@),
        forall|seal: Seq<u8>, image_id: Seq<u8>, journal: Seq<u8>| #[trigger]
            is_proof_encoding(data@, seal, image_id, journal) ==> {
                &&& decoded is Some
                &&& decoded->0.seal@ == seal
                &&& decoded->0.image_id@ == image_id
                &&& decoded->0.journal@ == journal
            },
{
    proof {
        assert forall|seal: Seq<u8>, image_id: Seq<u8>, journal: Seq<u8>| #[trigger]
            is_proof_encoding(data@, seal, image_id, journal) implies proof_pieces(
            data@,
            seal,
            image_id,
            journal,
        ) by {
            lemma_proof_pieces(data@, seal, image_id, journal);
        };
    }
    if data.len() < 160 || data.len() > 0xffff_ffff {
        return None;
    }
    match read_word(data, 0) {
        Some(96) => {},
        _ => {
            return None;
        },
    }
    let image_id = slice_to_vec(slice_subrange(data, 32, 64));
    let offset = match read_word(data, 64) {
        Some(n) => n,
        None => {
            return None;
        },
    };
    let (seal, mid) = match read_tail(data, 96) {
        Some(found) => found,
        None => {
            return None;
        },
    };
    if offset as usize != mid {
        return None;
    }
    let (journal, end) = match read_tail(data, mid) {
        Some(found) => found,
        None => {
            return None;
        },
    };
    if end != data.len() {
        return None;
    }
    proof {
        lemma_proof_pieces(data@, seal@, image_id@, journal@);
        let fields = (seal@, image_id@, journal@);
        assert(is_proof_encoding(data@, fields.0, fields.1, fields.2));
        let found = proof_fields(data@)->0;
        assert(found =~= fields);
    }
    Some(DecodedProof { seal, image_id, journal })
}

/// Decodes an envelope into the attestation document and the encoded
/// proof. Succeeds on exactly the byte strings that are the envelope of some
/// two fields, and returns those fields.
pub fn decode_envelope(data: &[u8]) -> (decoded: Option<DecodedEnvelope>)
    ensures
        match decoded {
            Some(d) => envelope_fields(data@) == Some((d.attestation@, d.proof@)),
            None => envelope_fields(data@) is None,
        },
        decoded matches Some(d) ==> is_envelope_encoding(data@, d.attestation@, d.proof@),
        forall|attestation: Seq<u8>, proof: Seq<u8>| #[trigger]
            is_envelope_encoding(data@, attestation, proof) ==> {
                &&& decoded is Some
                &&& decoded->0.attestation@ == attestation
                &&& decoded->0.proof@ == proof
            },
{
    proof {
        assert forall|attestation: Seq<u8>, proof: Seq<u8>| #[trigger]
            is_envelope_encoding(data@, attestation, proof) implies envelope_pieces(
            data@,
            attestation,
            proof,
        ) by {
            lemma_envelope_pieces(data@, attestation, proof);
        };
    }
    if data.len() < 128 || data.len() > 0xffff_ffff {
        return None;
    }
    match read_word(data, 0) {
        Some(64) => {},
        _ => {
            return None;
        },
    }
    let offset = match read_word(data, 32) {
        Some(n) => n,
        None => {
            return None;
        },
    };
    let (attestation, mid) = match read_tail(data, 64) {
        Some(found) => found,
        None => {
            return None;
        },
    };
    if offset as usize != mid {
        return None;
    }
    let (proof, end) = match read_tail(data, mid) {
        Some(found) => found,
        None => {
            return None;
        },
    };
    if end != data.len() {
        return None;
    }
    proof {
        lemma_envelope_pieces(data@, attestation@, proof@);
        let fields = (attestation@, proof@);
        assert(is_envelope_encoding(data@, fields.0, fields.1));
        let found = envelope_fields(data@)->0;
        assert(found =~= fields);
    }
    Some(DecodedEnvelope { attestation, proof })
}

} // verus!
