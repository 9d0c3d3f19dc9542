//! Public key fingerprints: the BLAKE3 hash of a public key's bytes.

use vstd::prelude::*;

use crate::foreign::base58::{base58_bytes, base58_decode, base58_encode, base58_text};
use crate::foreign::hash::{blake3_digest, blake3_hash};
use crate::foreign::text::vec_to_array32;

verus! {

/// A fingerprint identifying a public key (32 bytes; Base58 for display).
#[derive(Clone, Copy, Debug, PartialEq, Eq, Hash)]
pub struct PublicKeyFingerprint(pub(crate) [u8; 32]);

impl View for PublicKeyFingerprint {
    type V = Seq<u8>;

    closed spec fn view(&self) -> Seq<u8> {
        self.0@
    }
}

/// A fingerprint has 32 bytes.
pub proof fn lemma_fingerprint_len(f: PublicKeyFingerprint)
    ensures
        f@.len() == 32,
{
}

/// Fingerprints with the same bytes are equal.
pub proof fn lemma_fingerprint_ext(a: PublicKeyFingerprint, b: PublicKeyFingerprint)
    requires
        a@ == b@,
    ensures
        a == b,
{
    broadcast use vstd::array::group_array_axioms;

    assert forall|i: int| 0 <= i < 32 implies a.0[i] == b.0[i] by {
        assert(a.0@[i] == b.0@[i]);
    }
    assert(a.0 =~= b.0);
}

impl PublicKeyFingerprint {
    /// Create from raw bytes.
    pub fn from_bytes(bytes: [u8; 32]) -> (r: Self)
        ensures
            r@ == bytes@,
    {
        Self(bytes)
    }

    /// The fingerprint of a public key: the BLAKE3 hash of its bytes.
    pub fn from_public_key(pubkey_bytes: &[u8]) -> (r: Self)
        ensures
            r@ == blake3_digest(pubkey_bytes@),
    {
        Self(blake3_hash(pubkey_bytes))
    }

    /// The raw bytes.
    pub fn as_bytes(&self) -> (r: &[u8; 32])
        ensures
            r@ == self@,
    {
        &self.0
    }

    /// Base58 text of the fingerprint; decoding it gives the fingerprint back.
    pub fn to_base58(&self) -> (r: String)
        ensures
            r@ == base58_text(self@),
            base58_bytes(r@) == Some(self@),
    {
        base58_encode(self.0.as_slice())
    }

    /// Decode from Base58: `None` unless the text is valid Base58 of exactly
    /// 32 bytes.
    pub fn from_base58(s: &str) -> (r: Option<Self>)
        ensures
            match r {
                Some(f) => base58_bytes(s@) == Some(f@),
                None => !(base58_bytes(s@) matches Some(b) && b.len() == 32),
            },
    {
        let bytes = base58_decode(s)?;
        let arr = vec_to_array32(bytes)?;
        Some(Self(arr))
    }

    /// The Base58 text, as shown to people.
    pub fn to_string(&self) -> (r: String)
        ensures
            r@ == base58_text(self@),
    {
        self.to_base58()
    }
}

impl From<[u8; 32]> for PublicKeyFingerprint {
    fn from(bytes: [u8; 32]) -> (r: Self) {
        Self(bytes)
    }
}

impl vstd::std_specs::convert::FromSpecImpl<[u8; 32]> for PublicKeyFingerprint {
    open spec fn obeys_from_spec() -> bool {
        true
    }

    closed spec fn from_spec(bytes: [u8; 32]) -> Self {
        PublicKeyFingerprint(bytes)
    }
}

} // verus!
