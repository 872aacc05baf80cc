use attestation_prover::encoder::wrap;
use attestation_prover::hextext::{parse_attestation, render_envelope};
use attestation_prover::pipeline::ErrorCategory;

#[test]
fn attestation_text_is_read_in_either_case() {
    assert_eq!(parse_attestation("8444a101", None), Ok(vec![0x84, 0x44, 0xa1, 0x01]));
    assert_eq!(parse_attestation("00ff7F80aBcD", None), Ok(vec![0, 255, 127, 128, 0xab, 0xcd]));
    assert_eq!(parse_attestation("0f10", Some(2)), Ok(vec![0x0f, 0x10]));
}

#[test]
fn malformed_attestation_text_is_rejected() {
    assert_eq!(parse_attestation("123", None), Err(ErrorCategory::InputRejected));
    assert_eq!(parse_attestation("zz", None), Err(ErrorCategory::InputRejected));
    assert_eq!(parse_attestation("0x12", None), Err(ErrorCategory::InputRejected));
    assert_eq!(parse_attestation("12 34", None), Err(ErrorCategory::InputRejected));
    assert_eq!(parse_attestation("\u{e9}\u{e9}", None), Err(ErrorCategory::InputRejected));
}

#[test]
fn empty_or_oversized_attestation_text_is_rejected() {
    assert_eq!(parse_attestation("", None), Err(ErrorCategory::InputRejected));
    assert_eq!(parse_attestation("010203", Some(2)), Err(ErrorCategory::InputRejected));
}

#[test]
fn envelope_is_rendered_in_lowercase_with_prefix() {
    assert_eq!(render_envelope(&[]), "0x");
    assert_eq!(render_envelope(&[0x00, 0x0f, 0xf0, 0xAB, 0x9c]), "0x000ff0ab9c");
    let envelope = wrap(&[0xaa], &[]).unwrap();
    let text = render_envelope(&envelope);
    assert_eq!(text.len(), 2 + 2 * envelope.len());
    assert!(text.starts_with("0x00000000000000000000000000000000000000000000000000000000000000400"));
    assert_eq!(parse_attestation(&text[2..], None), Ok(envelope));
}
