//! The XChaCha20 stream cipher (`chacha20` crate).

use vstd::prelude::*;
use chacha20::cipher::{KeyIvInit as _, StreamCipher as _, StreamCipherSeek as _};

verus! {

/// `data` XORed with the XChaCha20 keystream of the key and nonce.
pub uninterp spec fn xchacha20_xor(key: Seq<u8>, nonce: Seq<u8>, data: Seq<u8>) -> Seq<u8>;

/// `XChaCha20::new(key, nonce).apply_keystream` on a copy of `data`: the
/// result has the input's length, and applying the same keystream to it
/// gives the input back (XOR with a fixed keystream). The cipher's block
/// counter allows 2^32 - 1 blocks of 64 bytes from the start; a longer input
/// panics, which the precondition leaves out.
#[verifier::external_body]
pub(crate) fn xchacha20_apply(key: &[u8; 32], nonce: &[u8; 24], data: &[u8]) -> (r: Vec<u8>)
    requires
        data@.len() <= 0x3F_FFFF_FFC0,
    ensures
        r@ == xchacha20_xor(key@, nonce@, data@),
        r@.len() == data@.len(),
        xchacha20_xor(key@, nonce@, r@) == data@,
{
    let mut out = data.to_vec();
    let mut cipher = chacha20::XChaCha20::new(key.into(), nonce.into());
    cipher.apply_keystream(&mut out);
    out
}

/// `XChaCha20::new(key, nonce)`, `seek(offset)`, then `apply_keystream` on
/// a copy of `data`: the keystream from byte `offset` on, XORed with the
/// data; the same as XORing the data placed at `offset` and dropping the
/// bytes before it. Seeking or applying past the counter's 2^32 - 1 blocks
/// of 64 bytes panics, which the precondition leaves out.
#[verifier::external_body]
pub(crate) fn xchacha20_apply_at(key: &[u8; 32], nonce: &[u8; 24], offset: u64, data: &[u8]) -> (r:
    Vec<u8>)
    requires
        offset + data@.len() <= 0x3F_FFFF_FFC0,
    ensures
        r@ == xchacha20_xor(
            key@,
            nonce@,
            Seq::new(offset as nat, |i: int| 0u8) + data@,
        ).skip(offset as int),
{
    let mut out = data.to_vec();
    let mut cipher = chacha20::XChaCha20::new(key.into(), nonce.into());
    cipher.seek(offset);
    cipher.apply_keystream(&mut out);
    out
}

} // verus!
