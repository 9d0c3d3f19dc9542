//! What the hardware-enclave signers compute around the enclave: turning the
//! public keys and signatures that an enclave exports into the protocol's
//! P-256 forms (a compressed SEC1 key, a 64-byte `r ‖ s` signature).

use vstd::prelude::*;

use crate::auth::algorithm::ClassicalAlg;
use crate::auth::error::{AuthError, Fault};
use crate::auth::key::{ClassicalPublicKey, ClassicalSignature};
use crate::foreign::ecdsa_p256::{
    p256_compress, p256_compressed_of, p256_der_ok, p256_der_to_raw, p256_point_ok,
    p256_raw_of_der,
};
use crate::foreign::text::vec_to_array32;
use crate::seqs::le_value;

verus! {

/// Size of a P-256 field element, in bytes.
pub const COORD_LEN: usize = 32;

/// A big-endian number as exactly 32 bytes: its last 32 bytes, or the
/// bytes behind leading zeros.
pub open spec fn left_pad32_spec(s: Seq<u8>) -> Seq<u8> {
    if s.len() >= 32 {
        s.subrange(s.len() - 32, s.len() as int)
    } else {
        Seq::new((32 - s.len()) as nat, |i: int| 0u8) + s
    }
}

/// Left-pad a big-endian field element to 32 bytes; enclaves return
/// coordinates and signature halves with their leading zero bytes stripped.
pub fn left_pad32(src: &[u8]) -> (r: [u8; 32])
    ensures
        r@ == left_pad32_spec(src@),
{
    let n: usize = if src.len() < COORD_LEN {
        src.len()
    } else {
        COORD_LEN
    };
    let mut out: Vec<u8> = Vec::new();
    let mut i: usize = 0;
    while i < COORD_LEN - n
        invariant
            n <= 32,
            i <= 32 - n,
            out@ == Seq::new(i as nat, |j: int| 0u8),
        decreases 32 - n - i,
    {
        out.push(0u8);
        assert(out@ =~= Seq::new((i + 1) as nat, |j: int| 0u8));
        i = i + 1;
    }
    let start: usize = src.len() - n;
    let mut k: usize = start;
    while k < src.len()
        invariant
            n <= 32,
            n <= src.len(),
            start == src.len() - n,
            start <= k <= src.len(),
            out@ == Seq::new((32 - n) as nat, |j: int| 0u8) + src@.subrange(start as int, k as int),
        decreases src.len() - k,
    {
        out.push(src[k]);
        assert(src@.subrange(start as int, k + 1) =~= src@.subrange(start as int, k as int).push(
            src@[k as int],
        ));
        k = k + 1;
    }
    assert(out@ =~= left_pad32_spec(src@));
    match vec_to_array32(out) {
        Some(a) => a,
        None => {
            assert(false);
            [0u8; 32]
        },
    }
}

/// A raw 64-byte `r ‖ s` signature from the two big-endian halves.
pub fn raw_rs_from_components(r: &[u8], s: &[u8]) -> (out: Vec<u8>)
    ensures
        out@ == left_pad32_spec(r@) + left_pad32_spec(s@),
        out@.len() == 64,
{
    let ra = left_pad32(r);
    let sa = left_pad32(s);
    let mut out: Vec<u8> = Vec::new();
    crate::seqs::append_bytes(&mut out, &ra);
    crate::seqs::append_bytes(&mut out, &sa);
    assert(out@ =~= left_pad32_spec(r@) + left_pad32_spec(s@));
    out
}

/// What compressing an encoded point gives: the P-256 key in compressed
/// form, or a backend error when the bytes are no point of the curve.
pub open spec fn compressed_key_result(
    sec1: Seq<u8>,
    r: core::result::Result<ClassicalPublicKey, AuthError>,
) -> bool {
    match r {
        Ok(k) => p256_point_ok(sec1) && k.alg == ClassicalAlg::P256 && k.bytes@
            == p256_compressed_of(sec1),
        Err(e) => !p256_point_ok(sec1) && e@ == Fault::Backend,
    }
}

/// The protocol's P-256 public key from an SEC1-encoded point, as an
/// enclave exports it (the uncompressed `04 ‖ X ‖ Y`).
pub fn pubkey_from_sec1(data: &[u8]) -> (r: core::result::Result<ClassicalPublicKey, AuthError>)
    ensures
        compressed_key_result(data@, r),
        r matches Ok(k) ==> (data@.len() == 65 && data@[0] == 4 ==> k.bytes@ == seq![
            (2 + data@[64] % 2) as u8,
        ] + data@.subrange(1, 33)),
{
    match p256_compress(data) {
        Some(c) => Ok(ClassicalPublicKey { alg: ClassicalAlg::P256, bytes: c }),
        None => Err(AuthError::Backend("invalid EC public point".to_owned())),
    }
}

/// The uncompressed SEC1 encoding `04 ‖ X ‖ Y` of two coordinates.
pub open spec fn sec1_uncompressed(x: Seq<u8>, y: Seq<u8>) -> Seq<u8> {
    seq![4u8] + x + y
}

/// The protocol's P-256 public key from the affine coordinates that a TPM
/// reports (big-endian, leading zeros stripped).
pub fn pubkey_from_coordinates(x: &[u8], y: &[u8]) -> (r: core::result::Result<
    ClassicalPublicKey,
    AuthError,
>)
    ensures
        compressed_key_result(sec1_uncompressed(left_pad32_spec(x@), left_pad32_spec(y@)), r),
        r matches Ok(k) ==> k.bytes@ == seq![(2 + left_pad32_spec(y@)[31] % 2) as u8]
            + left_pad32_spec(x@),
{
    let xa = left_pad32(x);
    let ya = left_pad32(y);
    let mut sec1: Vec<u8> = Vec::new();
    sec1.push(4u8);
    crate::seqs::append_bytes(&mut sec1, &xa);
    crate::seqs::append_bytes(&mut sec1, &ya);
    let ghost e = sec1_uncompressed(left_pad32_spec(x@), left_pad32_spec(y@));
    assert(sec1@ =~= e);
    assert(e.subrange(1, 33) =~= left_pad32_spec(x@));
    assert(e[64] == left_pad32_spec(y@)[31]);
    pubkey_from_sec1(&sec1)
}

/// A `BCRYPT_ECCPUBLIC_BLOB` of a P-256 key: an 8-byte header whose second
/// little-endian `u32` is the coordinate size, 32, then `X` and `Y`.
pub open spec fn ecc_blob_layout_ok(blob: Seq<u8>) -> bool {
    blob.len() >= 8 && le_value(blob.subrange(4, 8)) == 32 && blob.len() >= 72
}

/// The point of a well-laid-out blob, uncompressed.
pub open spec fn ecc_blob_point(blob: Seq<u8>) -> Seq<u8> {
    sec1_uncompressed(blob.subrange(8, 40), blob.subrange(40, 72))
}

/// The little-endian value of four bytes.
proof fn lemma_le_value_4(s: Seq<u8>)
    requires
        s.len() == 4,
    ensures
        le_value(s) == s[0] + 256 * s[1] + 65536 * s[2] + 16777216 * s[3],
{
    let s1 = s.drop_first();
    let s2 = s1.drop_first();
    let s3 = s2.drop_first();
    let s4 = s3.drop_first();
    assert(s4.len() == 0);
    assert(le_value(s4) == 0);
    assert(le_value(s3) == s[3]);
    assert(le_value(s2) == s[2] + 256 * s[3]);
    assert(le_value(s1) == s[1] + 256 * (s[2] + 256 * s[3]));
    assert(le_value(s) == s[0] + 256 * (s[1] + 256 * (s[2] + 256 * s[3])));
}

/// The protocol's P-256 public key from a Windows CNG key export
/// (`BCRYPT_ECCPUBLIC_BLOB`). A blob shorter than its header, or with
/// another coordinate size or too few bytes, is a backend error.
pub fn pubkey_from_ecc_blob(blob: &[u8]) -> (r: core::result::Result<ClassicalPublicKey, AuthError>)
    ensures
        !ecc_blob_layout_ok(blob@) ==> (r matches Err(e) && e@ == Fault::Backend),
        ecc_blob_layout_ok(blob@) ==> compressed_key_result(ecc_blob_point(blob@), r),
        r matches Ok(k) ==> k.bytes@ == seq![(2 + blob@[71] % 2) as u8] + blob@.subrange(8, 40),
{
    if blob.len() < 8 {
        return Err(AuthError::Backend("ECC blob too short".to_owned()));
    }
    proof {
        lemma_le_value_4(blob@.subrange(4, 8));
    }
    let size_is_32: bool = blob[4] == 32 && blob[5] == 0 && blob[6] == 0 && blob[7] == 0;
    assert(size_is_32 <==> le_value(blob@.subrange(4, 8)) == 32);
    if !size_is_32 || blob.len() < 72 {
        return Err(AuthError::Backend("unexpected ECC blob layout".to_owned()));
    }
    let mut sec1: Vec<u8> = Vec::new();
    sec1.push(4u8);
    let x = crate::seqs::copy_range(blob, 8, 40);
    let y = crate::seqs::copy_range(blob, 40, 72);
    crate::seqs::append_bytes(&mut sec1, &x);
    crate::seqs::append_bytes(&mut sec1, &y);
    assert(sec1@ =~= ecc_blob_point(blob@));
    assert(sec1@.subrange(1, 33) =~= blob@.subrange(8, 40));
    pubkey_from_sec1(&sec1)
}

/// The protocol's P-256 signature from the ASN.1 DER signature an enclave
/// returns; a malformed one is a backend error.
pub fn signature_from_der(der: &[u8]) -> (r: core::result::Result<ClassicalSignature, AuthError>)
    ensures
        match r {
            Ok(sig) => p256_der_ok(der@) && sig.alg == ClassicalAlg::P256 && sig.bytes@
                == p256_raw_of_der(der@) && sig.bytes@.len() == 64,
            Err(e) => !p256_der_ok(der@) && e@ == Fault::Backend,
        },
{
    match p256_der_to_raw(der) {
        Some(raw) => Ok(ClassicalSignature { alg: ClassicalAlg::P256, bytes: raw }),
        None => Err(AuthError::Backend("malformed ECDSA DER signature".to_owned())),
    }
}

} // verus!
