use recrypt::auth::algorithm::ClassicalAlg;
use recrypt::auth::enclave::{
    left_pad32, pubkey_from_coordinates, pubkey_from_ecc_blob, pubkey_from_sec1,
    raw_rs_from_components, signature_from_der,
};
use recrypt::auth::error::AuthError;
use recrypt::auth::signer::verify_classical;

use p256::ecdsa::signature::Signer as _;

/// The P-256 base point.
const GX: [u8; 32] = [
    0x6b, 0x17, 0xd1, 0xf2, 0xe1, 0x2c, 0x42, 0x47, 0xf8, 0xbc, 0xe6, 0xe5, 0x63, 0xa4, 0x40,
    0xf2, 0x77, 0x03, 0x7d, 0x81, 0x2d, 0xeb, 0x33, 0xa0, 0xf4, 0xa1, 0x39, 0x45, 0xd8, 0x98,
    0xc2, 0x96,
];
const GY: [u8; 32] = [
    0x4f, 0xe3, 0x42, 0xe2, 0xfe, 0x1a, 0x7f, 0x9b, 0x8e, 0xe7, 0xeb, 0x4a, 0x7c, 0x0f, 0x9e,
    0x16, 0x2b, 0xce, 0x33, 0x57, 0x6b, 0x31, 0x5e, 0xce, 0xcb, 0xb6, 0x40, 0x68, 0x37, 0xbf,
    0x51, 0xf5,
];

fn compressed_g() -> Vec<u8> {
    let mut v = vec![0x03];
    v.extend_from_slice(&GX);
    v
}

#[test]
fn left_pad32_restores_stripped_zeros() {
    let out = left_pad32(&[1, 2, 3]);
    let mut expected = [0u8; 32];
    expected[29] = 1;
    expected[30] = 2;
    expected[31] = 3;
    assert_eq!(out, expected);
    assert_eq!(left_pad32(&[]), [0u8; 32]);
    assert_eq!(left_pad32(&GX), GX);
}

#[test]
fn left_pad32_keeps_last_32_of_longer_input() {
    let mut long = vec![0xaa, 0xbb];
    long.extend_from_slice(&GY);
    assert_eq!(left_pad32(&long), GY);
}

#[test]
fn raw_rs_concatenates_padded_halves() {
    let out = raw_rs_from_components(&[7], &[9, 9]);
    assert_eq!(out.len(), 64);
    assert_eq!(out[31], 7);
    assert_eq!(out[62], 9);
    assert_eq!(out[63], 9);
    assert!(out[..31].iter().all(|b| *b == 0));
    assert!(out[32..62].iter().all(|b| *b == 0));
}

#[test]
fn uncompressed_point_is_compressed() {
    let mut sec1 = vec![0x04];
    sec1.extend_from_slice(&GX);
    sec1.extend_from_slice(&GY);
    let key = pubkey_from_sec1(&sec1).unwrap();
    assert_eq!(key.alg, ClassicalAlg::P256);
    assert_eq!(key.bytes, compressed_g());
}

#[test]
fn point_off_the_curve_is_backend_error() {
    let mut sec1 = vec![0x04];
    sec1.extend_from_slice(&GX);
    sec1.extend_from_slice(&GX);
    assert!(matches!(pubkey_from_sec1(&sec1), Err(AuthError::Backend(_))));
    assert!(matches!(pubkey_from_sec1(&[]), Err(AuthError::Backend(_))));
}

#[test]
fn coordinates_with_stripped_zeros_give_the_key() {
    let key = pubkey_from_coordinates(&GX, &GY).unwrap();
    assert_eq!(key.bytes, compressed_g());
}

fn ecc_blob(cb_key: u32, x: &[u8], y: &[u8]) -> Vec<u8> {
    let mut blob = vec![0x45, 0x43, 0x53, 0x31];
    blob.extend_from_slice(&cb_key.to_le_bytes());
    blob.extend_from_slice(x);
    blob.extend_from_slice(y);
    blob
}

#[test]
fn ecc_blob_gives_compressed_key() {
    let key = pubkey_from_ecc_blob(&ecc_blob(32, &GX, &GY)).unwrap();
    assert_eq!(key.alg, ClassicalAlg::P256);
    assert_eq!(key.bytes, compressed_g());
}

#[test]
fn ecc_blob_layout_errors() {
    assert!(matches!(pubkey_from_ecc_blob(&[0u8; 7]), Err(AuthError::Backend(_))));
    assert!(matches!(pubkey_from_ecc_blob(&ecc_blob(48, &GX, &GY)), Err(AuthError::Backend(_))));
    let short = ecc_blob(32, &GX, &GY[..31]);
    assert!(matches!(pubkey_from_ecc_blob(&short), Err(AuthError::Backend(_))));
    assert!(matches!(pubkey_from_ecc_blob(&ecc_blob(32, &GX, &GX)), Err(AuthError::Backend(_))));
}

#[test]
fn der_signature_converts_to_raw_and_verifies() {
    let sk = p256::ecdsa::SigningKey::from_slice(&[0x11u8; 32]).unwrap();
    let sig: p256::ecdsa::Signature = sk.sign(b"payload");
    let der = sig.to_der();
    let out = signature_from_der(der.as_bytes()).unwrap();
    assert_eq!(out.alg, ClassicalAlg::P256);
    assert_eq!(out.bytes, sig.to_bytes().to_vec());

    let encoded = sk.verifying_key().to_encoded_point(true);
    let public = pubkey_from_sec1(encoded.as_bytes()).unwrap();
    assert!(verify_classical(&public, b"payload", &out).is_ok());
}

#[test]
fn malformed_der_is_backend_error() {
    assert!(matches!(signature_from_der(&[0x30, 0x02, 0x01]), Err(AuthError::Backend(_))));
}
