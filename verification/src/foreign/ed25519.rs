//! Ed25519 (`ed25519-dalek` crate), on plain byte arrays.

use vstd::prelude::*;
use ed25519_dalek::Signer as _;

verus! {

/// The public key of the Ed25519 identity with this 32-byte seed.
pub uninterp spec fn ed25519_public_of(seed: Seq<u8>) -> Seq<u8>;

/// The Ed25519 signature of `msg` under the identity with this seed
/// (Ed25519 signing is deterministic).
pub uninterp spec fn ed25519_signature_of(seed: Seq<u8>, msg: Seq<u8>) -> Seq<u8>;

/// The 32 bytes are accepted as a compressed Edwards point by
/// `VerifyingKey::from_bytes`.
pub uninterp spec fn ed25519_key_ok(key: Seq<u8>) -> bool;

/// `verify_strict` accepts the 64-byte signature of `msg` under the key.
pub uninterp spec fn ed25519_verifies(key: Seq<u8>, msg: Seq<u8>, sig: Seq<u8>) -> bool;

/// `SigningKey::generate` with the operating system's random source; the
/// seed of the new key. Nothing is claimed of the value.
#[verifier::external_body]
pub(crate) fn ed25519_generate() -> (r: [u8; 32]) {
    ed25519_dalek::SigningKey::generate(&mut rand_core::OsRng).to_bytes()
}

/// `SigningKey::from_bytes(seed).verifying_key().to_bytes()`: the 32-byte
/// public key, a function of the seed, which `VerifyingKey::from_bytes`
/// accepts (it is the compression of a curve point).
#[verifier::external_body]
pub(crate) fn ed25519_public(seed: &[u8; 32]) -> (r: [u8; 32])
    ensures
        r@ == ed25519_public_of(seed@),
        ed25519_key_ok(r@),
{
    ed25519_dalek::SigningKey::from_bytes(seed).verifying_key().to_bytes()
}

/// `SigningKey::from_bytes(seed).sign(msg).to_bytes()`: the 64-byte
/// signature, a function of the seed and the message. `verify_strict` under
/// the seed's public key accepts it: that key is the base point times the
/// clamped secret scalar, `R` is a multiple of the base point and `s` is
/// reduced.
#[verifier::external_body]
pub(crate) fn ed25519_sign(seed: &[u8; 32], msg: &[u8]) -> (r: [u8; 64])
    ensures
        r@ == ed25519_signature_of(seed@, msg@),
        ed25519_verifies(ed25519_public_of(seed@), msg@, r@),
{
    ed25519_dalek::SigningKey::from_bytes(seed).sign(msg).to_bytes()
}

/// `VerifyingKey::from_bytes` succeeds on the 32 key bytes.
#[verifier::external_body]
pub(crate) fn ed25519_key_valid(key: &[u8]) -> (r: bool)
    requires
        key@.len() == 32,
    ensures
        r == ed25519_key_ok(key@),
{
    let kb: [u8; 32] = key.try_into().unwrap();
    ed25519_dalek::VerifyingKey::from_bytes(&kb).is_ok()
}

/// `VerifyingKey::verify_strict` of the 64-byte signature (read with
/// `Signature::from_bytes`) over `msg`.
#[verifier::external_body]
pub(crate) fn ed25519_verify(key: &[u8], msg: &[u8], sig: &[u8]) -> (r: bool)
    requires
        key@.len() == 32,
        sig@.len() == 64,
        ed25519_key_ok(key@),
    ensures
        r == ed25519_verifies(key@, msg@, sig@),
{
    let kb: [u8; 32] = key.try_into().unwrap();
    let sb: [u8; 64] = sig.try_into().unwrap();
    let vk = ed25519_dalek::VerifyingKey::from_bytes(&kb).unwrap();
    vk.verify_strict(msg, &ed25519_dalek::Signature::from_bytes(&sb)).is_ok()
}

} // verus!
