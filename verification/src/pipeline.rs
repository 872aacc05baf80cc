//! One proof request, from attestation bytes to response.
//!
//! The proving itself happens outside this library. What is decided here is
//! which requests are let through to the backend, and what the caller gets
//! for each way the backend can answer: the envelope bytes, or an error of
//! one of five stable categories.

use crate::abi::encodable;
use crate::encoder::{
    encode_proof, envelope_layout, envelope_size, flattened, proof_layout, proof_size, seal_of,
    wrap, Receipt,
};
use crate::scheduler::Admission;
use vstd::prelude::*;

verus! {

/// The categories of failure a caller can tell apart.
#[derive(Debug, Clone, Copy, PartialEq, Eq)]
pub enum ErrorCategory {
    /// The attestation was refused before any proving started.
    InputRejected,
    /// The guest program trapped or the backend failed.
    ProvingFailed,
    /// The receipt could not be encoded for the verifier.
    EncodingPreconditionFailed,
    /// Every proving worker is occupied and the queue is full.
    ServiceBusy,
    /// The request timed out or was withdrawn.
    Cancelled,
}

/// How the proving backend answered one request.
#[derive(Debug)]
pub enum ProveOutcome {
    /// The execution environment could not be built around the input.
    EnvironmentRejected,
    /// Proving started and did not complete.
    Failed,
    /// Proving was cancelled before it completed.
    Cancelled,
    /// Proving completed with this receipt.
    Proved(Receipt),
}

/// The deployment's constants, which must match the verifier contract.
#[derive(Debug, Clone, Copy)]
pub struct ProofConfig {
    /// The identity of the guest program.
    pub image_id: [u32; 8],
    /// The prefix that routes the seal to the right verifier routine.
    pub selector: [u8; 4],
    /// The longest attestation accepted, if capped.
    pub max_attestation_len: Option<usize>,
}

impl ErrorCategory {
    /// Whether the same request may succeed if sent again later.
    pub open spec fn retryable(self) -> bool {
        self is ServiceBusy || self is Cancelled
    }

    /// The response status of each category.
    pub open spec fn status(self) -> u16 {
        match self {
            ErrorCategory::InputRejected => 400,
            ErrorCategory::ProvingFailed => 500,
            ErrorCategory::EncodingPreconditionFailed => 502,
            ErrorCategory::ServiceBusy => 503,
            ErrorCategory::Cancelled => 504,
        }
    }

    /// Whether the same request may succeed if sent again later: true of a
    /// busy service and of a cancelled request, false of the rest.
    pub fn is_retryable(&self) -> (retry: bool)
        ensures
            retry == self.retryable(),
    {
        match self {
            ErrorCategory::ServiceBusy | ErrorCategory::Cancelled => true,
            _ => false,
        }
    }

    /// The response status of the category: a client error for a rejected
    /// input, a server error for the rest.
    pub fn status_code(&self) -> (code: u16)
        ensures
            code == self.status(),
    {
        match self {
            ErrorCategory::InputRejected => 400,
            ErrorCategory::ProvingFailed => 500,
            ErrorCategory::EncodingPreconditionFailed => 502,
            ErrorCategory::ServiceBusy => 503,
            ErrorCategory::Cancelled => 504,
        }
    }
}

/// Each category has a response status of its own: a client error for a
/// rejected input only, a server error for the others.
pub proof fn lemma_status_distinct(a: ErrorCategory, b: ErrorCategory)
    ensures
        a.status() == b.status() ==> a == b,
        400 <= a.status() < 500 <==> a is InputRejected,
        500 <= a.status() < 600 <==> !(a is InputRejected),
{
}

/// The attestation is one the service lets through to the backend.
pub open spec fn acceptable(attestation: Seq<u8>, max_len: Option<usize>) -> bool {
    &&& attestation.len() > 0
    &&& match max_len {
        Some(m) => attestation.len() <= m,
        None => true,
    }
}

/// What a request is answered with, for each way the backend can answer.
pub open spec fn response(config: ProofConfig, attestation: Seq<u8>, outcome: ProveOutcome)
    -> Result<Seq<u8>, ErrorCategory> {
    match outcome {
        ProveOutcome::EnvironmentRejected => Err(ErrorCategory::InputRejected),
        ProveOutcome::Failed => Err(ErrorCategory::ProvingFailed),
        ProveOutcome::Cancelled => Err(ErrorCategory::Cancelled),
        ProveOutcome::Proved(receipt) => match seal_of(receipt) {
            None => Err(ErrorCategory::EncodingPreconditionFailed),
            Some(seal) => {
                let size = proof_size(4 + seal.len(), receipt.journal@.len());
                if encodable(size) && encodable(envelope_size(attestation.len(), size)) {
                    Ok(
                        envelope_layout(
                            attestation,
                            proof_layout(
                                config.selector@ + seal,
                                flattened(config.image_id@),
                                receipt.journal@,
                            ),
                        ),
                    )
                } else {
                    Err(ErrorCategory::EncodingPreconditionFailed)
                }
            },
        },
    }
}

/// Checks an attestation before any proving: it is rejected where it is
/// empty, and where a cap is set and it is longer than the cap.
pub fn check_attestation(attestation: &[u8], max_len: Option<usize>) -> (checked: Result<
    (),
    ErrorCategory,
>)
    ensures
        acceptable(attestation@, max_len) ==> checked is Ok,
        !acceptable(attestation@, max_len) ==> checked == Err::<(), ErrorCategory>(
            ErrorCategory::InputRejected,
        ),
{
    if attestation.len() == 0 {
        return Err(ErrorCategory::InputRejected);
    }
    match max_len {
        Some(m) => {
            if attestation.len() > m {
                return Err(ErrorCategory::InputRejected);
            }
        },
        None => {},
    }
    Ok(())
}

/// The error owed to a request that the pool refused; none where the pool
/// took the request.
pub fn admission_error(admission: Admission) -> (error: Option<ErrorCategory>)
    ensures
        admission is Busy ==> error == Some(ErrorCategory::ServiceBusy),
        !(admission is Busy) ==> error is None,
{
    match admission {
        Admission::Busy => Some(ErrorCategory::ServiceBusy),
        _ => None,
    }
}

/// Turns the backend's answer into the caller's: the envelope of the
/// attestation and the encoded proof where proving completed with a
/// compressed seal, and the error of the matching category otherwise.
/// Nothing partial is ever returned.
pub fn respond(config: &ProofConfig, attestation: &[u8], outcome: ProveOutcome) -> (answer: Result<
    Vec<u8>,
    ErrorCategory,
>)
    ensures
        match response(*config, attestation@, outcome) {
            Ok(bytes) => answer is Ok && answer->Ok_0@ == bytes,
            Err(category) => answer == Err::<Vec<u8>, ErrorCategory>(category),
        },
{
    match outcome {
        ProveOutcome::EnvironmentRejected => Err(ErrorCategory::InputRejected),
        ProveOutcome::Failed => Err(ErrorCategory::ProvingFailed),
        ProveOutcome::Cancelled => Err(ErrorCategory::Cancelled),
        ProveOutcome::Proved(receipt) => {
            let proof = match encode_proof(&receipt, &config.image_id, &config.selector) {
                Ok(proof) => proof,
                Err(_) => {
                    return Err(ErrorCategory::EncodingPreconditionFailed);
                },
            };
            proof {
                crate::encoder::lemma_proof_layout(
                    config.selector@ + seal_of(receipt)->0,
                    flattened(config.image_id@),
                    receipt.journal@,
                );
            }
            match wrap(attestation, proof.as_slice()) {
                Ok(envelope) => Ok(envelope),
                Err(_) => Err(ErrorCategory::EncodingPreconditionFailed),
            }
        },
    }
}

} // verus!
