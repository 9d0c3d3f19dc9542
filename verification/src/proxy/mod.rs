//! Proxy re-encryption core: errors, re-encryption keys and ciphertexts,
//! the key-material bundle, hybrid encryption and coefficient packing.

pub mod coefficients;
pub mod error;
pub mod hybrid;
pub mod keymaterial;
pub mod pre;
pub mod sign;
pub mod stream;
