//! Packaging of zero-knowledge attestation proofs for an on-chain verifier.
//!
//! A proving backend turns a signed attestation document into a receipt. This
//! library holds the rules around that step: which requests are admitted, how
//! many proofs run at once, and the exact byte layout in which a receipt is
//! handed to the verifier contract and read back.

pub mod abi;
pub mod decoder;
pub mod encoder;
pub mod hextext;
pub mod pipeline;
pub mod scheduler;
pub mod server;
