//! Hardware-enclave-friendly challenge/response authentication: verifier-issued
//! challenges, self-describing keys and signatures, canonical CBOR wire
//! format, and downgrade-proof verification.

pub mod algorithm;
pub mod attestation;
pub mod challenge;
pub mod enclave;
pub mod cbor;
pub mod error;
pub mod key;
pub mod nonce;
pub mod signer;
pub mod verify;
