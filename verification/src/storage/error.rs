//! Errors of the storage authorization layer.

use vstd::prelude::*;

use crate::proxy::error::CoreError;

verus! {

/// Every way a storage authorization operation can fail.
#[derive(Debug)]
pub enum AuthError {
    FileNotFound(String),
    NotAuthorized(String),
    CapabilityExpired,
    InvalidSignature,
    OperationNotPermitted(String),
    AlreadyExists(String),
    InvalidFingerprint(String),
    Storage(String),
    InvalidEncoding(String),
    ChainTooDeep { max: usize },
    ChainInvalid(String),
    UnknownIssuer(String),
    Signature(CoreError),
}

/// Result type of the storage authorization layer.
pub type AuthResult<T> = core::result::Result<T, AuthError>;

} // verus!
