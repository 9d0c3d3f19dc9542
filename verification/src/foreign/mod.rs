//! The library's contact points with code it does not verify: each function
//! here makes one call into std or an outside crate and states what the
//! library relies on about it.

pub mod bao;
pub mod base58;
pub mod clock;
pub mod ecdsa_p256;
pub mod ed25519;
pub mod envelope;
pub mod hash;
pub mod ml_dsa;
pub mod random;
pub mod text;
pub mod xchacha;
