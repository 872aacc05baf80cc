use attestation_prover::decoder::{decode_envelope, decode_proof};
use attestation_prover::encoder::{InnerReceipt, Receipt};
use attestation_prover::pipeline::{
    admission_error, check_attestation, respond, ErrorCategory, ProofConfig, ProveOutcome,
};
use attestation_prover::scheduler::Admission;
use attestation_prover::server::ProvingServer;

fn config() -> ProofConfig {
    ProofConfig {
        image_id: [1, 2, 3, 4, 5, 6, 7, 8],
        selector: [0xc1, 0x01, 0xb4, 0x2b],
        max_attestation_len: Some(8),
    }
}

#[test]
fn server_keeps_its_port() {
    assert_eq!(ProvingServer::new(8080).port(), 8080);
    assert_eq!(ProvingServer::new(0).port(), 0);
}

#[test]
fn attestation_is_checked_before_proving() {
    assert_eq!(check_attestation(&[], None), Err(ErrorCategory::InputRejected));
    assert_eq!(check_attestation(&[], Some(8)), Err(ErrorCategory::InputRejected));
    assert_eq!(check_attestation(&[1], None), Ok(()));
    assert_eq!(check_attestation(&[1; 8], Some(8)), Ok(()));
    assert_eq!(check_attestation(&[1; 9], Some(8)), Err(ErrorCategory::InputRejected));
    assert_eq!(check_attestation(&[1; 9], None), Ok(()));
}

#[test]
fn failures_map_to_their_categories() {
    let c = config();
    assert_eq!(
        respond(&c, &[1], ProveOutcome::EnvironmentRejected),
        Err(ErrorCategory::InputRejected)
    );
    assert_eq!(respond(&c, &[1], ProveOutcome::Failed), Err(ErrorCategory::ProvingFailed));
    assert_eq!(respond(&c, &[1], ProveOutcome::Cancelled), Err(ErrorCategory::Cancelled));
    for inner in [InnerReceipt::Composite, InnerReceipt::Succinct, InnerReceipt::Fake] {
        let receipt = Receipt { inner, journal: vec![1] };
        assert_eq!(
            respond(&c, &[1], ProveOutcome::Proved(receipt)),
            Err(ErrorCategory::EncodingPreconditionFailed)
        );
    }
}

#[test]
fn proved_request_yields_the_envelope() {
    let receipt =
        Receipt { inner: InnerReceipt::Groth16 { seal: vec![0xde, 0xad] }, journal: vec![9, 8, 7] };
    let envelope = respond(&config(), &[0xaa, 0xbb], ProveOutcome::Proved(receipt)).unwrap();
    let outer = decode_envelope(&envelope).unwrap();
    assert_eq!(outer.attestation, vec![0xaa, 0xbb]);
    let inner = decode_proof(&outer.proof).unwrap();
    assert_eq!(inner.seal, vec![0xc1, 0x01, 0xb4, 0x2b, 0xde, 0xad]);
    assert_eq!(inner.image_id.len(), 32);
    assert_eq!(&inner.image_id[..8], &[1, 0, 0, 0, 2, 0, 0, 0]);
    assert_eq!(inner.journal, vec![9, 8, 7]);
}

#[test]
fn only_busy_and_cancelled_are_retryable() {
    assert!(ErrorCategory::ServiceBusy.is_retryable());
    assert!(ErrorCategory::Cancelled.is_retryable());
    assert!(!ErrorCategory::InputRejected.is_retryable());
    assert!(!ErrorCategory::ProvingFailed.is_retryable());
    assert!(!ErrorCategory::EncodingPreconditionFailed.is_retryable());
}

#[test]
fn status_codes_are_distinct() {
    assert_eq!(ErrorCategory::InputRejected.status_code(), 400);
    assert_eq!(ErrorCategory::ProvingFailed.status_code(), 500);
    assert_eq!(ErrorCategory::EncodingPreconditionFailed.status_code(), 502);
    assert_eq!(ErrorCategory::ServiceBusy.status_code(), 503);
    assert_eq!(ErrorCategory::Cancelled.status_code(), 504);
}

#[test]
fn refused_admission_is_service_busy() {
    assert_eq!(admission_error(Admission::Busy), Some(ErrorCategory::ServiceBusy));
    assert_eq!(admission_error(Admission::Queued), None);
    assert_eq!(admission_error(Admission::Started { worker: 0 }), None);
}
