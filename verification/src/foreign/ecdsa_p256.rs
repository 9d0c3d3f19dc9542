//! ECDSA over P-256 (`p256` crate), on plain bytes.

use vstd::prelude::*;
use p256::ecdsa::signature::Signer as _;
use p256::ecdsa::signature::Verifier as _;
use p256::elliptic_curve::sec1::ToEncodedPoint as _;

verus! {

/// The bytes are a secret scalar accepted by `SigningKey::from_slice`.
pub uninterp spec fn p256_secret_ok(secret: Seq<u8>) -> bool;

/// The compressed SEC1 public key of the secret scalar.
pub uninterp spec fn p256_public_of(secret: Seq<u8>) -> Seq<u8>;

/// The 64-byte ECDSA signature of `msg` under the secret (the crate derives
/// the nonce deterministically, RFC 6979).
pub uninterp spec fn p256_signature_of(secret: Seq<u8>, msg: Seq<u8>) -> Seq<u8>;

/// `VerifyingKey::from_sec1_bytes` accepts the key bytes.
pub uninterp spec fn p256_key_ok(key: Seq<u8>) -> bool;

/// `Signature::from_slice` accepts the signature bytes.
pub uninterp spec fn p256_sig_ok(sig: Seq<u8>) -> bool;

/// `VerifyingKey::verify` accepts the signature of `msg` under the key.
pub uninterp spec fn p256_verifies(key: Seq<u8>, msg: Seq<u8>, sig: Seq<u8>) -> bool;

/// `SigningKey::random` with the operating system's random source, as the
/// bytes of its secret scalar (`to_bytes`). The scalar is nonzero and below
/// the group order, so `from_slice` accepts the bytes; nothing else is
/// claimed of the value.
#[verifier::external_body]
pub(crate) fn p256_generate() -> (r: Vec<u8>)
    ensures
        p256_secret_ok(r@),
{
    p256::ecdsa::SigningKey::random(&mut rand_core::OsRng).to_bytes().to_vec()
}

/// The verifying key of the secret, SEC1-encoded in compressed form.
#[verifier::external_body]
pub(crate) fn p256_public(secret: &[u8]) -> (r: Vec<u8>)
    requires
        p256_secret_ok(secret@),
    ensures
        r@ == p256_public_of(secret@),
{
    let sk = p256::ecdsa::SigningKey::from_slice(secret).unwrap();
    sk.verifying_key().to_encoded_point(true).as_bytes().to_vec()
}

/// `Signer::sign` of `msg`, as the 64 bytes of the signature.
#[verifier::external_body]
pub(crate) fn p256_sign(secret: &[u8], msg: &[u8]) -> (r: Vec<u8>)
    requires
        p256_secret_ok(secret@),
    ensures
        r@ == p256_signature_of(secret@, msg@),
{
    let sk = p256::ecdsa::SigningKey::from_slice(secret).unwrap();
    let sig: p256::ecdsa::Signature = sk.sign(msg);
    sig.to_bytes().to_vec()
}

/// Whether `VerifyingKey::from_sec1_bytes` accepts the key bytes.
#[verifier::external_body]
pub(crate) fn p256_key_valid(key: &[u8]) -> (r: bool)
    ensures
        r == p256_key_ok(key@),
{
    p256::ecdsa::VerifyingKey::from_sec1_bytes(key).is_ok()
}

/// Whether `Signature::from_slice` accepts the signature bytes.
#[verifier::external_body]
pub(crate) fn p256_sig_valid(sig: &[u8]) -> (r: bool)
    ensures
        r == p256_sig_ok(sig@),
{
    p256::ecdsa::Signature::from_slice(sig).is_ok()
}

/// `VerifyingKey::verify` of the parsed signature over `msg`.
#[verifier::external_body]
pub(crate) fn p256_verify(key: &[u8], msg: &[u8], sig: &[u8]) -> (r: bool)
    requires
        p256_key_ok(key@),
        p256_sig_ok(sig@),
    ensures
        r == p256_verifies(key@, msg@, sig@),
{
    let vk = p256::ecdsa::VerifyingKey::from_sec1_bytes(key).unwrap();
    let s = p256::ecdsa::Signature::from_slice(sig).unwrap();
    vk.verify(msg, &s).is_ok()
}

/// `PublicKey::from_sec1_bytes` accepts the bytes: an encoding of a point of
/// the curve other than the identity.
pub uninterp spec fn p256_point_ok(sec1: Seq<u8>) -> bool;

/// The compressed SEC1 encoding of the point that the bytes encode.
pub uninterp spec fn p256_compressed_of(sec1: Seq<u8>) -> Seq<u8>;

/// `PublicKey::from_sec1_bytes`, then `to_encoded_point(true)`: the point in
/// compressed form, 33 bytes. The compressed form of an uncompressed point
/// `04 ‖ X ‖ Y` is `02 ‖ X` for even `Y` and `03 ‖ X` for odd `Y` (sec1's
/// `from_affine_coordinates` with `Tag::compress_y`; the coordinates parsed
/// by `from_repr` are written back by `to_repr` unchanged).
#[verifier::external_body]
pub(crate) fn p256_compress(sec1: &[u8]) -> (r: Option<Vec<u8>>)
    ensures
        r is Some <==> p256_point_ok(sec1@),
        r matches Some(c) ==> c@ == p256_compressed_of(sec1@) && c@.len() == 33,
        r matches Some(c) ==> (sec1@.len() == 65 && sec1@[0] == 4 ==> c@ == seq![
            (2 + sec1@[64] % 2) as u8,
        ] + sec1@.subrange(1, 33)),
{
    match p256::PublicKey::from_sec1_bytes(sec1) {
        Ok(p) => Some(p.to_encoded_point(true).as_bytes().to_vec()),
        Err(_) => None,
    }
}

/// `Signature::from_der` accepts the bytes: an ASN.1 DER ECDSA signature with
/// `r` and `s` in range.
pub uninterp spec fn p256_der_ok(der: Seq<u8>) -> bool;

/// The fixed-size `r ‖ s` form of the DER signature.
pub uninterp spec fn p256_raw_of_der(der: Seq<u8>) -> Seq<u8>;

/// `Signature::from_der`, then `to_bytes`: the signature as `r ‖ s`, each a
/// 32-byte big-endian scalar.
#[verifier::external_body]
pub(crate) fn p256_der_to_raw(der: &[u8]) -> (r: Option<Vec<u8>>)
    ensures
        r is Some <==> p256_der_ok(der@),
        r matches Some(raw) ==> raw@ == p256_raw_of_der(der@) && raw@.len() == 64,
{
    match p256::ecdsa::Signature::from_der(der) {
        Ok(sig) => Some(sig.to_bytes().to_vec()),
        Err(_) => None,
    }
}

} // verus!
