//! ML-DSA (FIPS 204, `fips204` crate), on plain bytes.

use vstd::prelude::*;
use fips204::traits::{SerDes as _, Signer as _, Verifier as _};

verus! {

/// `try_keygen` for ML-DSA-65 with the operating system's random source:
/// the encoded public and private keys (1952 and 4032 bytes), or the
/// crate's error text. Nothing else is claimed of the values.
#[verifier::external_body]
pub(crate) fn ml_dsa_65_generate() -> (r: Result<(Vec<u8>, Vec<u8>), String>)
    ensures
        r matches Ok((pk, sk)) ==> pk@.len() == 1952 && sk@.len() == 4032,
{
    match fips204::ml_dsa_65::try_keygen() {
        Ok((pk, sk)) => Ok((pk.into_bytes().to_vec(), sk.into_bytes().to_vec())),
        Err(e) => Err(format!("ml-dsa-65 keygen: {e}")),
    }
}

/// `PrivateKey::try_from_bytes` and then `try_sign` (hedged: the crate mixes
/// in fresh randomness) with an empty context: a 3309-byte signature, or the
/// crate's error text. Nothing else is claimed of the signature.
#[verifier::external_body]
pub(crate) fn ml_dsa_65_sign(sk: &[u8], msg: &[u8]) -> (r: Result<Vec<u8>, String>)
    requires
        sk@.len() == 4032,
    ensures
        r matches Ok(s) ==> s@.len() == 3309,
{
    let kb: [u8; 4032] = sk.try_into().unwrap();
    match fips204::ml_dsa_65::PrivateKey::try_from_bytes(kb) {
        Err(e) => Err(format!("ml-dsa-65 sign: {e}")),
        Ok(k) => match k.try_sign(msg, &[]) {
            Ok(s) => Ok(s.to_vec()),
            Err(e) => Err(format!("ml-dsa-65 sign: {e}")),
        },
    }
}

/// `ml_dsa_44::PublicKey::try_from_bytes` accepts the 1312-byte key.
pub uninterp spec fn ml_dsa_44_key_ok(pk: Seq<u8>) -> bool;

/// `ml_dsa_44::PublicKey::verify` accepts the 2420-byte signature of `msg`
/// (empty context) under the key.
pub uninterp spec fn ml_dsa_44_verifies(pk: Seq<u8>, msg: Seq<u8>, sig: Seq<u8>) -> bool;

/// Whether `ml_dsa_44::PublicKey::try_from_bytes` accepts the key; its
/// error text when it does not.
#[verifier::external_body]
pub(crate) fn ml_dsa_44_key_valid(pk: &[u8]) -> (r: Result<(), String>)
    requires
        pk@.len() == 1312,
    ensures
        r is Ok <==> ml_dsa_44_key_ok(pk@),
{
    let kb: [u8; 1312] = pk.try_into().unwrap();
    match fips204::ml_dsa_44::PublicKey::try_from_bytes(kb) {
        Ok(_) => Ok(()),
        Err(e) => Err(format!("{e}")),
    }
}

/// `ml_dsa_44::PublicKey::verify` of the signature over `msg`, with an
/// empty context.
#[verifier::external_body]
pub(crate) fn ml_dsa_44_verify(pk: &[u8], msg: &[u8], sig: &[u8]) -> (r: bool)
    requires
        pk@.len() == 1312,
        sig@.len() == 2420,
        ml_dsa_44_key_ok(pk@),
    ensures
        r == ml_dsa_44_verifies(pk@, msg@, sig@),
{
    let kb: [u8; 1312] = pk.try_into().unwrap();
    let sb: [u8; 2420] = sig.try_into().unwrap();
    let k = fips204::ml_dsa_44::PublicKey::try_from_bytes(kb).unwrap();
    k.verify(msg, &sb, &[])
}

/// `ml_dsa_65::PublicKey::try_from_bytes` accepts the 1952-byte key.
pub uninterp spec fn ml_dsa_65_key_ok(pk: Seq<u8>) -> bool;

/// `ml_dsa_65::PublicKey::verify` accepts the 3309-byte signature of `msg`
/// (empty context) under the key.
pub uninterp spec fn ml_dsa_65_verifies(pk: Seq<u8>, msg: Seq<u8>, sig: Seq<u8>) -> bool;

/// Whether `ml_dsa_65::PublicKey::try_from_bytes` accepts the key; its
/// error text when it does not.
#[verifier::external_body]
pub(crate) fn ml_dsa_65_key_valid(pk: &[u8]) -> (r: Result<(), String>)
    requires
        pk@.len() == 1952,
    ensures
        r is Ok <==> ml_dsa_65_key_ok(pk@),
{
    let kb: [u8; 1952] = pk.try_into().unwrap();
    match fips204::ml_dsa_65::PublicKey::try_from_bytes(kb) {
        Ok(_) => Ok(()),
        Err(e) => Err(format!("{e}")),
    }
}

/// `ml_dsa_65::PublicKey::verify` of the signature over `msg`, with an
/// empty context.
#[verifier::external_body]
pub(crate) fn ml_dsa_65_verify(pk: &[u8], msg: &[u8], sig: &[u8]) -> (r: bool)
    requires
        pk@.len() == 1952,
        sig@.len() == 3309,
        ml_dsa_65_key_ok(pk@),
    ensures
        r == ml_dsa_65_verifies(pk@, msg@, sig@),
{
    let kb: [u8; 1952] = pk.try_into().unwrap();
    let sb: [u8; 3309] = sig.try_into().unwrap();
    let k = fips204::ml_dsa_65::PublicKey::try_from_bytes(kb).unwrap();
    k.verify(msg, &sb, &[])
}

/// `ml_dsa_87::PublicKey::try_from_bytes` accepts the 2592-byte key.
pub uninterp spec fn ml_dsa_87_key_ok(pk: Seq<u8>) -> bool;

/// `ml_dsa_87::PublicKey::verify` accepts the 4627-byte signature of `msg`
/// (empty context) under the key.
pub uninterp spec fn ml_dsa_87_verifies(pk: Seq<u8>, msg: Seq<u8>, sig: Seq<u8>) -> bool;

/// Whether `ml_dsa_87::PublicKey::try_from_bytes` accepts the key; its
/// error text when it does not.
#[verifier::external_body]
pub(crate) fn ml_dsa_87_key_valid(pk: &[u8]) -> (r: Result<(), String>)
    requires
        pk@.len() == 2592,
    ensures
        r is Ok <==> ml_dsa_87_key_ok(pk@),
{
    let kb: [u8; 2592] = pk.try_into().unwrap();
    match fips204::ml_dsa_87::PublicKey::try_from_bytes(kb) {
        Ok(_) => Ok(()),
        Err(e) => Err(format!("{e}")),
    }
}

/// `ml_dsa_87::PublicKey::verify` of the signature over `msg`, with an
/// empty context.
#[verifier::external_body]
pub(crate) fn ml_dsa_87_verify(pk: &[u8], msg: &[u8], sig: &[u8]) -> (r: bool)
    requires
        pk@.len() == 2592,
        sig@.len() == 4627,
        ml_dsa_87_key_ok(pk@),
    ensures
        r == ml_dsa_87_verifies(pk@, msg@, sig@),
{
    let kb: [u8; 2592] = pk.try_into().unwrap();
    let sb: [u8; 4627] = sig.try_into().unwrap();
    let k = fips204::ml_dsa_87::PublicKey::try_from_bytes(kb).unwrap();
    k.verify(msg, &sb, &[])
}

} // verus!

verus! {

/// `ml_dsa_87::PrivateKey::try_from_bytes` and then `try_sign` (hedged: the
/// crate mixes in fresh randomness) with an empty context: a 4627-byte
/// signature, or the crate's error text. Nothing else is claimed of the
/// signature.
#[verifier::external_body]
pub(crate) fn ml_dsa_87_sign(sk: &[u8], msg: &[u8]) -> (r: Result<Vec<u8>, String>)
    requires
        sk@.len() == 4896,
    ensures
        r matches Ok(s) ==> s@.len() == 4627,
{
    let kb: [u8; 4896] = sk.try_into().unwrap();
    match fips204::ml_dsa_87::PrivateKey::try_from_bytes(kb) {
        Err(e) => Err(format!("{e}")),
        Ok(k) => match k.try_sign(msg, &[]) {
            Ok(s) => Ok(s.to_vec()),
            Err(e) => Err(format!("{e}")),
        },
    }
}

} // verus!
