//! Errors of the re-encryption core and of the native bindings.

use vstd::prelude::*;

verus! {

/// Errors of the native cryptography bindings.
#[derive(Debug)]
pub enum FfiError {
    OpenFhe(String),
    LibOqs(String),
    Ed25519Verification,
    InvalidKey(String),
    Encryption(String),
    Decryption(String),
}

/// Errors of proxy re-encryption operations.
#[derive(Debug)]
pub enum PreError {
    KeyGeneration(String),
    Encryption(String),
    Decryption(String),
    Recryption(String),
    RecryptKeyGeneration(String),
    Serialization(String),
    Deserialization(String),
    InvalidKey(String),
    BackendUnavailable(String),
}

/// Errors of the core library.
#[derive(Debug)]
pub enum CoreError {
    PreBackend(PreError),
    Signature(String),
    Encryption(String),
    Decryption(String),
    Verification(String),
    InvalidKey(String),
    Ffi(FfiError),
    FileTooLarge { size: u64, max: u64 },
    IntegrityCheckFailed,
    RangeOutOfBounds { plaintext_size: u64 },
}

/// Result type of the core library.
pub type CoreResult<T> = core::result::Result<T, CoreError>;

/// Result type of re-encryption operations.
pub type PreResult<T> = core::result::Result<T, PreError>;

} // verus!
