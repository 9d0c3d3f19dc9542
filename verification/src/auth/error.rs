//! Error type for the challenge/response authentication protocol.

use vstd::prelude::*;

verus! {

/// Every way an authentication operation can fail.
#[derive(Debug)]
pub enum AuthError {
    Cbor(String),
    MissingField(&'static str),
    Version(u64),
    UnknownAlg(String),
    InvalidKey(&'static str),
    InvalidSig(&'static str),
    BadSignature,
    Audience,
    NonceTooShort,
    NonceReplay,
    TimeWindow,
    PqRequired,
    PqDangling,
    Backend(String),
}

/// The model of an [`AuthError`]: its kind and the data that identifies the
/// failure. The free-text diagnostics of `Cbor` and `Backend` are left out.
pub enum Fault {
    Cbor,
    MissingField(Seq<char>),
    Version(u64),
    UnknownAlg(Seq<char>),
    InvalidKey(Seq<char>),
    InvalidSig(Seq<char>),
    BadSignature,
    Audience,
    NonceTooShort,
    NonceReplay,
    TimeWindow,
    PqRequired,
    PqDangling,
    Backend,
}

impl View for AuthError {
    type V = Fault;

    open spec fn view(&self) -> Fault {
        match self {
            AuthError::Cbor(_) => Fault::Cbor,
            AuthError::MissingField(f) => Fault::MissingField(f@),
            AuthError::Version(v) => Fault::Version(*v),
            AuthError::UnknownAlg(t) => Fault::UnknownAlg(t@),
            AuthError::InvalidKey(k) => Fault::InvalidKey(k@),
            AuthError::InvalidSig(k) => Fault::InvalidSig(k@),
            AuthError::BadSignature => Fault::BadSignature,
            AuthError::Audience => Fault::Audience,
            AuthError::NonceTooShort => Fault::NonceTooShort,
            AuthError::NonceReplay => Fault::NonceReplay,
            AuthError::TimeWindow => Fault::TimeWindow,
            AuthError::PqRequired => Fault::PqRequired,
            AuthError::PqDangling => Fault::PqDangling,
            AuthError::Backend(_) => Fault::Backend,
        }
    }
}

/// Result type of the authentication protocol.
pub type Result<T> = core::result::Result<T, AuthError>;

} // verus!
