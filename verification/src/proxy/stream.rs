//! Streamed hybrid encryption over whole buffers: the ciphertext comes with
//! the outboard of its BLAKE3 verification tree (chunk groups of 16 KiB),
//! and decryption checks every chunk group against the tree before any
//! plaintext is given out. Reading and writing the streams is the caller's.

use vstd::prelude::*;

use crate::foreign::bao::{bao_check, bao_check_of, bao_outboard, bao_outboard_of, tree_parent_count};
use crate::foreign::hash::{blake3_digest, blake3_hash};
use crate::foreign::xchacha::{xchacha20_apply, xchacha20_apply_at, xchacha20_xor};
use crate::proxy::error::{CoreError, CoreResult};
use crate::proxy::hybrid::{
    check_file_size, check_plaintext_hash, check_range, outboard_needed, HybridEncryptor,
    MAX_IN_MEMORY_SIZE, SINGLE_CHUNK_GROUP_THRESHOLD,
};
use crate::proxy::keymaterial::{key_material_bytes, KeyMaterial};
use crate::proxy::pre::{Ciphertext, PreBackend, PublicKey, SecretKey};

verus! {

/// What checking a ciphertext against its verification tree gives.
#[derive(Clone, Copy, Debug, PartialEq, Eq, Structural)]
pub enum TreeCheck {
    /// The outboard is too short to walk the tree.
    Unreadable,
    /// Some chunk group or parent pair does not hash to what the tree above
    /// it expects.
    Rejected,
    /// Every chunk group hashes up to the root.
    Verified,
}

/// Result of a streamed encryption.
pub struct StreamingEncryptResult {
    /// Root hash of the verification tree over the ciphertext.
    pub bao_hash: [u8; 32],
    /// The re-encrypted key-material bundle.
    pub wrapped_key: Ciphertext,
    /// Number of ciphertext bytes.
    pub ciphertext_size: u64,
    /// Post-order outboard of the tree; empty for a single chunk group.
    pub outboard: Vec<u8>,
}

/// The outboard kept for a ciphertext: none for one that fits a single
/// chunk group.
pub open spec fn kept_outboard(ciphertext: Seq<u8>) -> Seq<u8> {
    if ciphertext.len() > SINGLE_CHUNK_GROUP_THRESHOLD {
        bao_outboard_of(ciphertext)
    } else {
        Seq::empty()
    }
}

/// What checking the ciphertext against the root and the outboard gives: an
/// outboard with fewer than one hash pair per parent node cannot be walked.
pub open spec fn tree_outcome(root: Seq<u8>, ciphertext: Seq<u8>, outboard: Seq<u8>) -> TreeCheck {
    if outboard.len() < 64 * tree_parent_count(ciphertext.len()) {
        TreeCheck::Unreadable
    } else {
        bao_check_of(root, ciphertext, outboard)
    }
}

/// Check the ciphertext against the root and the outboard.
pub fn check_tree(root: &[u8; 32], ciphertext: &[u8], outboard: &[u8]) -> (r: TreeCheck)
    requires
        ciphertext@.len() <= MAX_IN_MEMORY_SIZE,
    ensures
        r == tree_outcome(root@, ciphertext@, outboard@),
{
    let len = ciphertext.len() as u64;
    let parents: u64 = if len <= 16384 {
        0
    } else {
        (len + 16383) / 16384 - 1
    };
    if (outboard.len() as u64) < 64 * parents {
        return TreeCheck::Unreadable;
    }
    bao_check(root, ciphertext, outboard)
}

/// The plaintext bytes `[start, end)` of a ciphertext under the key material,
/// as far as the ciphertext reaches: the keystream from `start` on XORed
/// with the ciphertext bytes there.
pub open spec fn range_plaintext(k: KeyMaterial, ciphertext: Seq<u8>, start: u64, end: u64) -> Seq<
    u8,
> {
    let e: int = if end < ciphertext.len() {
        end as int
    } else {
        ciphertext.len() as int
    };
    if start < e {
        xchacha20_xor(
            k.symmetric_key@,
            k.nonce@,
            Seq::new(start as nat, |i: int| 0u8) + ciphertext.subrange(start as int, e),
        ).skip(start as int)
    } else {
        Seq::empty()
    }
}

/// What a streamed decryption under the key material gives: an unreadable
/// tree is a decryption error, a rejected one an integrity failure; a
/// verified ciphertext decrypts, and the plaintext must have the hash the key
/// material records.
pub open spec fn streamed_outcome(
    k: KeyMaterial,
    root: Seq<u8>,
    ciphertext: Seq<u8>,
    outboard: Seq<u8>,
    r: CoreResult<Vec<u8>>,
) -> bool {
    match tree_outcome(root, ciphertext, outboard) {
        TreeCheck::Unreadable => r matches Err(CoreError::Decryption(_)),
        TreeCheck::Rejected => r matches Err(CoreError::IntegrityCheckFailed),
        TreeCheck::Verified => {
            let p = xchacha20_xor(k.symmetric_key@, k.nonce@, ciphertext);
            if blake3_digest(p) == k.plaintext_hash@ {
                r matches Ok(v) && v@ == p
            } else {
                r matches Err(CoreError::IntegrityCheckFailed)
            }
        },
    }
}

/// What a range decryption under the key material gives: a range that ends
/// past the plaintext is refused first; then the tree is checked as for
/// [`streamed_outcome`], and a verified ciphertext gives the plaintext bytes
/// of the range.
pub open spec fn range_outcome(
    k: KeyMaterial,
    root: Seq<u8>,
    ciphertext: Seq<u8>,
    outboard: Seq<u8>,
    start: u64,
    end: u64,
    r: CoreResult<Vec<u8>>,
) -> bool {
    if end > k.plaintext_size {
        r == Err::<Vec<u8>, CoreError>(CoreError::RangeOutOfBounds { plaintext_size: k.plaintext_size })
    } else {
        match tree_outcome(root, ciphertext, outboard) {
            TreeCheck::Unreadable => r matches Err(CoreError::Decryption(_)),
            TreeCheck::Rejected => r matches Err(CoreError::IntegrityCheckFailed),
            TreeCheck::Verified => r matches Ok(v) && v@ == range_plaintext(k, ciphertext, start, end),
        }
    }
}

impl<B: PreBackend> HybridEncryptor<B> {
    /// Encrypt a whole plaintext for `recipient` and compute the
    /// verification tree over the ciphertext: the result holds the tree's
    /// root (the ciphertext's BLAKE3 hash), the wrapped key, the size and the
    /// kept outboard; the ciphertext comes alongside.
    pub fn encrypt_streaming_bytes(&self, recipient: &PublicKey, plaintext: &[u8]) -> (r: CoreResult<
        (StreamingEncryptResult, Vec<u8>),
    >)
        requires
            plaintext@.len() <= MAX_IN_MEMORY_SIZE,
        ensures
            match r {
                Ok((res, ct)) => {
                    &&& res.bao_hash@ == blake3_digest(ct@)
                    &&& res.ciphertext_size == ct@.len()
                    &&& res.outboard@ == kept_outboard(ct@)
                    &&& res.outboard@ == bao_outboard_of(ct@)
                    &&& res.outboard@.len() == 64 * tree_parent_count(ct@.len())
                    &&& exists|k: KeyMaterial|
                        #![trigger key_material_bytes(k)]
                        k.plaintext_hash@ == blake3_digest(plaintext@) && k.plaintext_size
                            == plaintext@.len() && ct@ == xchacha20_xor(
                            k.symmetric_key@,
                            k.nonce@,
                            plaintext@,
                        ) && self.backend_spec().encrypts(
                            *recipient,
                            key_material_bytes(k),
                            res.wrapped_key,
                        )
                },
                Err(e) => e is PreBackend || e is Encryption,
            },
    {
        match check_file_size(plaintext.len() as u64) {
            Ok(()) => {},
            Err(e) => return Err(e),
        }
        let file = match self.encrypt(recipient, plaintext) {
            Ok(f) => f,
            Err(e) => return Err(e),
        };
        let (root, ob) = match bao_outboard(file.ciphertext.as_slice()) {
            Some(x) => x,
            None => return Err(CoreError::Encryption("bao outboard".to_owned())),
        };
        let outboard = if outboard_needed(file.ciphertext.len()) {
            ob
        } else {
            proof {
                assert(ob@ =~= Seq::<u8>::empty());
            }
            Vec::new()
        };
        let res = StreamingEncryptResult {
            bao_hash: root,
            wrapped_key: file.wrapped_key,
            ciphertext_size: file.ciphertext.len() as u64,
            outboard,
        };
        Ok((res, file.ciphertext))
    }

    /// Decrypt a whole ciphertext whose tree root is `bao_hash`: the key
    /// material is unwrapped, every chunk group is checked against the tree,
    /// the ciphertext is decrypted and the plaintext hash checked.
    pub fn decrypt_streaming_bytes(
        &self,
        secret: &SecretKey,
        wrapped_key: &Ciphertext,
        bao_hash: &[u8; 32],
        ciphertext: &[u8],
        outboard: &[u8],
    ) -> (r: CoreResult<Vec<u8>>)
        requires
            ciphertext@.len() <= MAX_IN_MEMORY_SIZE,
        ensures
            r matches Err(CoreError::PreBackend(_)) || (r matches Err(CoreError::Decryption(_))
                && exists|p: Seq<u8>|
                #[trigger] self.backend_spec().decrypts(*secret, *wrapped_key, p) && !(p.len()
                    == 96 && p[0] == 1)) || exists|k: KeyMaterial|
                #[trigger] self.backend_spec().decrypts(
                    *secret,
                    *wrapped_key,
                    key_material_bytes(k),
                ) && streamed_outcome(k, bao_hash@, ciphertext@, outboard@, r),
    {
        let k = match self.unwrap_key_material(secret, wrapped_key) {
            Ok(k) => k,
            Err(e) => return Err(e),
        };
        proof {
            assert(self.backend_spec().decrypts(*secret, *wrapped_key, key_material_bytes(k)));
        }
        match check_tree(bao_hash, ciphertext, outboard) {
            TreeCheck::Unreadable => {
                return Err(CoreError::Decryption("bao encode".to_owned()));
            },
            TreeCheck::Rejected => {
                return Err(CoreError::IntegrityCheckFailed);
            },
            TreeCheck::Verified => {},
        }
        let plaintext = xchacha20_apply(&k.symmetric_key, &k.nonce, ciphertext);
        let computed = blake3_hash(plaintext.as_slice());
        match check_plaintext_hash(&k.plaintext_hash, &computed) {
            Ok(()) => Ok(plaintext),
            Err(e) => Err(e),
        }
    }

    /// Decrypt the plaintext bytes `[start, end)` of a ciphertext whose tree
    /// root is `bao_hash`: a range ending past the plaintext is refused, every
    /// chunk group is checked against the tree, and the bytes of the range
    /// that the ciphertext holds are decrypted from the keystream at `start`.
    pub fn decrypt_range_bytes(
        &self,
        secret: &SecretKey,
        wrapped_key: &Ciphertext,
        bao_hash: &[u8; 32],
        ciphertext: &[u8],
        outboard: &[u8],
        start: u64,
        end: u64,
    ) -> (r: CoreResult<Vec<u8>>)
        requires
            ciphertext@.len() <= MAX_IN_MEMORY_SIZE,
        ensures
            r matches Err(CoreError::PreBackend(_)) || (r matches Err(CoreError::Decryption(_))
                && exists|p: Seq<u8>|
                #[trigger] self.backend_spec().decrypts(*secret, *wrapped_key, p) && !(p.len()
                    == 96 && p[0] == 1)) || exists|k: KeyMaterial|
                #[trigger] self.backend_spec().decrypts(
                    *secret,
                    *wrapped_key,
                    key_material_bytes(k),
                ) && range_outcome(k, bao_hash@, ciphertext@, outboard@, start, end, r),
    {
        let k = match self.unwrap_key_material(secret, wrapped_key) {
            Ok(k) => k,
            Err(e) => return Err(e),
        };
        proof {
            assert(self.backend_spec().decrypts(*secret, *wrapped_key, key_material_bytes(k)));
        }
        match check_range(end, k.plaintext_size) {
            Ok(()) => {},
            Err(e) => return Err(e),
        }
        match check_tree(bao_hash, ciphertext, outboard) {
            TreeCheck::Unreadable => {
                return Err(CoreError::Decryption("bao encode ranges".to_owned()));
            },
            TreeCheck::Rejected => {
                return Err(CoreError::IntegrityCheckFailed);
            },
            TreeCheck::Verified => {},
        }
        let len = ciphertext.len() as u64;
        let e: u64 = if end < len {
            end
        } else {
            len
        };
        if start >= e {
            return Ok(Vec::new());
        }
        let part = crate::seqs::copy_range(ciphertext, start as usize, e as usize);
        Ok(xchacha20_apply_at(&k.symmetric_key, &k.nonce, start, part.as_slice()))
    }
}

} // verus!
