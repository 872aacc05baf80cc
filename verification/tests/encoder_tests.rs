use attestation_prover::decoder::{decode_envelope, decode_proof};
use attestation_prover::encoder::{
    encode_proof, flatten_image_id, prefix_seal, wrap, EncodeError, InnerReceipt, Receipt,
};

const SELECTOR: [u8; 4] = [0xc1, 0x01, 0xb4, 0x2b];
const IMAGE_ID: [u32; 8] = [1, 2, 3, 4, 5, 6, 7, 8];

fn unhex(text: &str) -> Vec<u8> {
    hex::decode(text).unwrap()
}

fn groth16(seal: &[u8], journal: &[u8]) -> Receipt {
    Receipt { inner: InnerReceipt::Groth16 { seal: seal.to_vec() }, journal: journal.to_vec() }
}

fn golden_proof() -> Vec<u8> {
    unhex(&format!(
        "{}{}{}{}{}{}{}",
        "0000000000000000000000000000000000000000000000000000000000000060",
        "0100000002000000030000000400000005000000060000000700000008000000",
        "00000000000000000000000000000000000000000000000000000000000000a0",
        "0000000000000000000000000000000000000000000000000000000000000008",
        "c101b42bdeadbeef000000000000000000000000000000000000000000000000",
        "0000000000000000000000000000000000000000000000000000000000000003",
        "0102030000000000000000000000000000000000000000000000000000000000",
    ))
}

fn golden_envelope() -> Vec<u8> {
    unhex(&format!(
        "{}{}{}{}{}{}",
        "0000000000000000000000000000000000000000000000000000000000000040",
        "0000000000000000000000000000000000000000000000000000000000000080",
        "0000000000000000000000000000000000000000000000000000000000000002",
        "aabb000000000000000000000000000000000000000000000000000000000000",
        "0000000000000000000000000000000000000000000000000000000000000003",
        "1122330000000000000000000000000000000000000000000000000000000000",
    ))
}

#[test]
fn flatten_matches_golden_vector() {
    let id: [u32; 8] = [
        0x01020304, 0x05060708, 0x090a0b0c, 0x0d0e0f10, 0x11121314, 0x15161718, 0x191a1b1c,
        0xfffefdfc,
    ];
    let expected = unhex("04030201080706050c0b0a09100f0e0d14131211181716151c1b1a19fcfdfeff");
    assert_eq!(flatten_image_id(&id), expected);
}

#[test]
fn flatten_agrees_with_little_endian_words() {
    let id: [u32; 8] = [0xdeadbeef, 0, u32::MAX, 1, 0x80000000, 0x00ff00ff, 42, 0x12345678];
    let mut expected = Vec::new();
    for w in id.iter() {
        expected.extend_from_slice(&w.to_le_bytes());
    }
    assert_eq!(flatten_image_id(&id), expected);
    assert_eq!(flatten_image_id(&id).len(), 32);
}

#[test]
fn prefix_is_concatenation() {
    assert_eq!(prefix_seal(&SELECTOR, &[0xde, 0xad]), vec![0xc1, 0x01, 0xb4, 0x2b, 0xde, 0xad]);
    assert_eq!(prefix_seal(&SELECTOR, &[]), vec![0xc1, 0x01, 0xb4, 0x2b]);
}

#[test]
fn encode_proof_matches_golden_vector() {
    let receipt = groth16(&[0xde, 0xad, 0xbe, 0xef], &[1, 2, 3]);
    assert_eq!(encode_proof(&receipt, &IMAGE_ID, &SELECTOR), Ok(golden_proof()));
}

#[test]
fn encode_proof_with_empty_seal_and_journal() {
    let receipt = groth16(&[], &[]);
    let encoded = encode_proof(&receipt, &IMAGE_ID, &SELECTOR).unwrap();
    let expected = unhex(&format!(
        "{}{}{}{}{}{}",
        "0000000000000000000000000000000000000000000000000000000000000060",
        "0100000002000000030000000400000005000000060000000700000008000000",
        "00000000000000000000000000000000000000000000000000000000000000a0",
        "0000000000000000000000000000000000000000000000000000000000000004",
        "c101b42b00000000000000000000000000000000000000000000000000000000",
        "0000000000000000000000000000000000000000000000000000000000000000",
    ));
    assert_eq!(encoded, expected);
}

#[test]
fn encode_proof_with_whole_word_fields() {
    let seal = [0x5a_u8; 28];
    let journal = [0xa5_u8; 64];
    let encoded = encode_proof(&groth16(&seal, &journal), &IMAGE_ID, &SELECTOR).unwrap();
    assert_eq!(encoded.len(), 96 + 32 + 32 + 32 + 64);
    assert_eq!(encoded[95], 0xa0);
    assert_eq!(encoded[127], 32);
    assert_eq!(&encoded[128..132], &SELECTOR[..]);
    assert_eq!(&encoded[132..160], &seal[..]);
    assert_eq!(encoded[191], 64);
    assert_eq!(&encoded[192..256], &journal[..]);
}

#[test]
fn encode_proof_without_seal_fails() {
    for inner in [InnerReceipt::Composite, InnerReceipt::Succinct, InnerReceipt::Fake] {
        let receipt = Receipt { inner, journal: vec![1, 2, 3] };
        assert_eq!(encode_proof(&receipt, &IMAGE_ID, &SELECTOR), Err(EncodeError::MissingSeal));
    }
}

#[test]
fn encoded_proof_carries_selector_image_id_and_journal() {
    let digest = unhex("04030201080706050c0b0a09100f0e0d14131211181716151c1b1a19201f1e1d");
    let id: [u32; 8] = [
        0x01020304, 0x05060708, 0x090a0b0c, 0x0d0e0f10, 0x11121314, 0x15161718, 0x191a1b1c,
        0x1d1e1f20,
    ];
    let seal: Vec<u8> = (0..=255u8).collect();
    let journal = b"attested public output".to_vec();
    let encoded = encode_proof(&groth16(&seal, &journal), &id, &SELECTOR).unwrap();
    let decoded = decode_proof(&encoded).unwrap();
    assert_eq!(&decoded.seal[..4], &[0xc1, 0x01, 0xb4, 0x2b]);
    assert_eq!(&decoded.seal[4..], &seal[..]);
    assert_eq!(decoded.image_id, digest);
    assert_eq!(decoded.journal, journal);
}

#[test]
fn proof_round_trip() {
    for (seal_len, journal_len) in [(0usize, 0usize), (1, 31), (28, 32), (29, 33), (256, 1000)] {
        let seal: Vec<u8> = (0..seal_len).map(|i| (i * 7 + 1) as u8).collect();
        let journal: Vec<u8> = (0..journal_len).map(|i| (i * 13 + 5) as u8).collect();
        let encoded = encode_proof(&groth16(&seal, &journal), &IMAGE_ID, &SELECTOR).unwrap();
        let decoded = decode_proof(&encoded).unwrap();
        assert_eq!(decoded.seal, prefix_seal(&SELECTOR, &seal));
        assert_eq!(decoded.image_id, flatten_image_id(&IMAGE_ID));
        assert_eq!(decoded.journal, journal);
    }
}

#[test]
fn decode_proof_reads_golden_vector() {
    let decoded = decode_proof(&golden_proof()).unwrap();
    assert_eq!(decoded.seal, unhex("c101b42bdeadbeef"));
    assert_eq!(
        decoded.image_id,
        unhex("0100000002000000030000000400000005000000060000000700000008000000")
    );
    assert_eq!(decoded.journal, vec![1, 2, 3]);
}

#[test]
fn decode_proof_rejects_what_is_no_encoding() {
    let good = golden_proof();
    assert!(decode_proof(&[]).is_none());
    assert!(decode_proof(&good[..good.len() - 1]).is_none());
    let mut longer = good.clone();
    longer.extend_from_slice(&[0u8; 32]);
    assert!(decode_proof(&longer).is_none());
    let mut bad_offset = good.clone();
    bad_offset[31] = 0x40;
    assert!(decode_proof(&bad_offset).is_none());
    let mut bad_second_offset = good.clone();
    bad_second_offset[95] = 0xc0;
    assert!(decode_proof(&bad_second_offset).is_none());
    let mut high_bytes = good.clone();
    high_bytes[100] = 1;
    assert!(decode_proof(&high_bytes).is_none());
    let mut dirty_padding = good.clone();
    dirty_padding[223] = 1;
    assert!(decode_proof(&dirty_padding).is_none());
    let mut long_length = good.clone();
    long_length[127] = 0xff;
    assert!(decode_proof(&long_length).is_none());
    assert!(decode_proof(&golden_envelope()).is_none());
}

#[test]
fn wrap_matches_golden_vector() {
    assert_eq!(wrap(&[0xaa, 0xbb], &[0x11, 0x22, 0x33]), Ok(golden_envelope()));
}

#[test]
fn wrap_of_empty_fields() {
    let expected = unhex(&format!(
        "{}{}{}{}",
        "0000000000000000000000000000000000000000000000000000000000000040",
        "0000000000000000000000000000000000000000000000000000000000000060",
        "0000000000000000000000000000000000000000000000000000000000000000",
        "0000000000000000000000000000000000000000000000000000000000000000",
    ));
    assert_eq!(wrap(&[], &[]), Ok(expected));
}

#[test]
fn envelope_round_trip() {
    let attestation: Vec<u8> = (0..4000usize).map(|i| (i % 251) as u8).collect();
    let proof = encode_proof(&groth16(&[9; 256], &[7; 40]), &IMAGE_ID, &SELECTOR).unwrap();
    let envelope = wrap(&attestation, &proof).unwrap();
    let decoded = decode_envelope(&envelope).unwrap();
    assert_eq!(decoded.attestation, attestation);
    assert_eq!(decoded.proof, proof);
    let inner = decode_proof(&decoded.proof).unwrap();
    assert_eq!(inner.journal, vec![7; 40]);
}

#[test]
fn decode_envelope_rejects_what_is_no_envelope() {
    let good = golden_envelope();
    assert!(decode_envelope(&good[..good.len() - 32]).is_none());
    let mut bad_offset = good.clone();
    bad_offset[63] = 0x60;
    assert!(decode_envelope(&bad_offset).is_none());
    let mut dirty_padding = good.clone();
    dirty_padding[98] = 1;
    assert!(decode_envelope(&dirty_padding).is_none());
    assert!(decode_envelope(&golden_proof()).is_none());
}
