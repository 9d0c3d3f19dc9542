//! The key-material bundle: the 96-byte plaintext that the re-encryption
//! layer encrypts.
//!
//! It is a versioned, fixed-size layout (not CBOR), sized to one lattice
//! plaintext slot. Version 1:
//!
//! ```text
//! [0]      version          = 1
//! [1..33]  symmetric_key    (XChaCha20 key, 32 bytes)
//! [33..57] nonce            (XChaCha20 nonce, 24 bytes)
//! [57..89] plaintext_hash   (BLAKE3 of the plaintext, 32 bytes)
//! [89..96] plaintext_size   (56-bit little-endian)
//! ```
//!
//! Unknown versions are rejected.

use vstd::prelude::*;

use crate::auth::cbor::pow256;
use crate::foreign::text::{vec_to_array24, vec_to_array32, vec_to_array96};
use crate::proxy::error::PreError;
use crate::seqs::{append_bytes, copy_range, le_bytes, le_value, push_le};

verus! {

broadcast use vstd::std_specs::vec::group_vec_axioms;

/// The key-material bundle.
#[derive(Clone, Debug)]
pub struct KeyMaterial {
    /// XChaCha20 symmetric key.
    pub symmetric_key: [u8; 32],
    /// XChaCha20 extended nonce.
    pub nonce: [u8; 24],
    /// BLAKE3 hash of the original plaintext.
    pub plaintext_hash: [u8; 32],
    /// Original plaintext size in bytes; at most `MAX_PLAINTEXT_SIZE`.
    pub plaintext_size: u64,
}

/// The encoding of a key-material bundle.
pub open spec fn key_material_bytes(k: KeyMaterial) -> Seq<u8> {
    seq![1u8] + k.symmetric_key@ + k.nonce@ + k.plaintext_hash@ + le_bytes(k.plaintext_size as nat, 7)
}

/// The bundle with these fields.
pub open spec fn same_key_material(a: KeyMaterial, b: KeyMaterial) -> bool {
    &&& a.symmetric_key@ == b.symmetric_key@
    &&& a.nonce@ == b.nonce@
    &&& a.plaintext_hash@ == b.plaintext_hash@
    &&& a.plaintext_size == b.plaintext_size
}

impl KeyMaterial {
    /// Serialized size: one version byte, 32 + 24 + 32 bytes and 7 size bytes.
    pub const SERIALIZED_SIZE: usize = 96;

    /// The format version encoders emit.
    pub const CURRENT_VERSION: u8 = 1;

    /// Largest representable plaintext size (2^56 - 1).
    pub const MAX_PLAINTEXT_SIZE: u64 = 72057594037927935;

    /// Encode the bundle; fails when the plaintext size does not fit 56 bits.
    pub fn to_bytes(&self) -> (r: Result<[u8; 96], PreError>)
        ensures
            match r {
                Ok(a) => self.plaintext_size <= Self::MAX_PLAINTEXT_SIZE && a@ == key_material_bytes(
                    *self,
                ),
                Err(e) => self.plaintext_size > Self::MAX_PLAINTEXT_SIZE && e is Serialization,
            },
    {
        if self.plaintext_size > Self::MAX_PLAINTEXT_SIZE {
            return Err(PreError::Serialization("plaintext_size exceeds the 56-bit maximum".to_owned()));
        }
        let mut out: Vec<u8> = Vec::new();
        out.push(Self::CURRENT_VERSION);
        append_bytes(&mut out, self.symmetric_key.as_slice());
        append_bytes(&mut out, self.nonce.as_slice());
        append_bytes(&mut out, self.plaintext_hash.as_slice());
        push_le(&mut out, self.plaintext_size, 7);
        assert(out@ =~= key_material_bytes(*self));
        proof {
            lemma_key_material_len(*self);
        }
        match vec_to_array96(out) {
            Some(a) => Ok(a),
            None => Err(PreError::Serialization("key material length".to_owned())),
        }
    }

    /// Decode a bundle: exactly 96 bytes with version 1.
    pub fn from_bytes(bytes: &[u8]) -> (r: Result<Self, PreError>)
        ensures
            match r {
                Ok(k) => bytes@ == key_material_bytes(k) && k.plaintext_size
                    <= Self::MAX_PLAINTEXT_SIZE,
                Err(e) => !(bytes@.len() == 96 && bytes@[0] == 1) && e is Deserialization,
            },
    {
        if bytes.len() != Self::SERIALIZED_SIZE {
            return Err(PreError::Deserialization("invalid key material size".to_owned()));
        }
        if bytes[0] != Self::CURRENT_VERSION {
            return Err(PreError::Deserialization("unknown KeyMaterial version".to_owned()));
        }
        let size = read_u56(bytes);
        let symmetric_key = vec_to_array32(copy_range(bytes, 1, 33));
        let nonce = vec_to_array24(copy_range(bytes, 33, 57));
        let plaintext_hash = vec_to_array32(copy_range(bytes, 57, 89));
        match (symmetric_key, nonce, plaintext_hash) {
            (Some(symmetric_key), Some(nonce), Some(plaintext_hash)) => {
                let k = KeyMaterial { symmetric_key, nonce, plaintext_hash, plaintext_size: size };
                proof {
                    crate::seqs::lemma_le_bytes_of_value(bytes@.subrange(89, 96));
                    assert(bytes@ =~= key_material_bytes(k));
                }
                Ok(k)
            },
            _ => Err(PreError::Deserialization("key material fields".to_owned())),
        }
    }
}

/// The encoding is 96 bytes long.
pub proof fn lemma_key_material_len(k: KeyMaterial)
    ensures
        key_material_bytes(k).len() == 96,
{
    crate::seqs::lemma_le_bytes_len(k.plaintext_size as nat, 7);
}

/// Read the 56-bit little-endian size at bytes 89..96.
fn read_u56(bytes: &[u8]) -> (r: u64)
    requires
        bytes@.len() == 96,
    ensures
        r as nat == le_value(bytes@.subrange(89, 96)),
        r <= KeyMaterial::MAX_PLAINTEXT_SIZE,
{
    let mut acc: u64 = 0;
    let mut j: usize = 96;
    proof {
        crate::auth::cbor::lemma_pow256_values();
    }
    while j > 89
        invariant
            89 <= j <= 96,
            bytes@.len() == 96,
            acc as nat == le_value(bytes@.subrange(j as int, 96)),
            acc < pow256((96 - j) as nat),
            pow256(7) == 0x100000000000000,
        decreases j,
    {
        j = j - 1;
        proof {
            crate::auth::cbor::lemma_pow256_mono((96 - j) as nat, 7);
            assert(bytes@.subrange(j as int, 96).drop_first() =~= bytes@.subrange(j + 1, 96));
            assert(pow256((96 - j) as nat) == 256 * pow256((96 - j - 1) as nat));
            assert(acc * 256 + bytes@[j as int] < pow256((96 - j) as nat)) by (nonlinear_arith)
                requires
                    acc < pow256((96 - j - 1) as nat),
                    bytes@[j as int] < 256,
                    pow256((96 - j) as nat) == 256 * pow256((96 - j - 1) as nat),
            ;
        }
        acc = acc * 256 + bytes[j] as u64;
    }
    acc
}

/// Decoding the encoding of a bundle gives the bundle back, field for field.
pub proof fn law_key_material_roundtrip(a: KeyMaterial, b: KeyMaterial)
    requires
        key_material_bytes(a) == key_material_bytes(b),
        a.plaintext_size <= KeyMaterial::MAX_PLAINTEXT_SIZE,
        b.plaintext_size <= KeyMaterial::MAX_PLAINTEXT_SIZE,
    ensures
        same_key_material(a, b),
{
    let x = key_material_bytes(a);
    let y = key_material_bytes(b);
    lemma_key_material_len(a);
    assert(a.symmetric_key@ =~= x.subrange(1, 33));
    assert(b.symmetric_key@ =~= y.subrange(1, 33));
    assert(a.nonce@ =~= x.subrange(33, 57));
    assert(b.nonce@ =~= y.subrange(33, 57));
    assert(a.plaintext_hash@ =~= x.subrange(57, 89));
    assert(b.plaintext_hash@ =~= y.subrange(57, 89));
    assert(le_bytes(a.plaintext_size as nat, 7) =~= x.subrange(89, 96));
    assert(le_bytes(b.plaintext_size as nat, 7) =~= y.subrange(89, 96));
    crate::auth::cbor::lemma_pow256_values();
    crate::seqs::lemma_le_bytes_injective(a.plaintext_size as nat, b.plaintext_size as nat, 7);
}

} // verus!
