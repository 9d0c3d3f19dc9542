//! The BLAKE3 verification tree over a ciphertext (`bao-tree` crate, its
//! synchronous interface), with chunk groups of 16 chunks of 1 KiB.

use vstd::prelude::*;

use bao_tree::io::outboard::{EmptyOutboard, PostOrderMemOutboard};
use bao_tree::io::sync::{decode_ranges, encode_ranges, outboard_post_order};
use bao_tree::{BaoTree, BlockSize, ChunkRanges};

use crate::foreign::hash::blake3_digest;
use crate::proxy::stream::TreeCheck;

verus! {

/// The post-order outboard (the parent hash pairs) of the verification tree
/// over the data.
pub uninterp spec fn bao_outboard_of(data: Seq<u8>) -> Seq<u8>;

/// The number of parent nodes of the tree over `len` bytes: one less than
/// its chunk groups of 16 KiB (a tree of at most one group has none).
pub open spec fn tree_parent_count(len: nat) -> nat {
    if len <= 16384 {
        0
    } else {
        ((len + 16383) / 16384 - 1) as nat
    }
}

/// What checking the data against the root hash and the outboard gives.
pub uninterp spec fn bao_check_of(root: Seq<u8>, data: Seq<u8>, outboard: Seq<u8>) -> TreeCheck;

/// `outboard_post_order` over the data: the root hash of the tree, which is
/// the data's BLAKE3 hash (the root of a tree in the standard hash mode is
/// `blake3::hash` of the data), and the outboard, which is empty for data
/// that fits one chunk group of 16 KiB (such a tree has no parent nodes)
/// and otherwise holds one pair of 32-byte hashes per parent node.
/// `None` when the outboard cannot be written, which a `Vec` never refuses.
#[verifier::external_body]
pub(crate) fn bao_outboard(data: &[u8]) -> (r: Option<([u8; 32], Vec<u8>)>)
    ensures
        r matches Some((root, ob)) ==> root@ == blake3_digest(data@) && ob@ == bao_outboard_of(
            data@,
        ),
        r matches Some((root, ob)) ==> ob@.len() == 64 * tree_parent_count(data@.len()),
{
    let tree = BaoTree::new(data.len() as u64, BlockSize::from_chunk_log(4));
    let mut ob: Vec<u8> = Vec::new();
    match outboard_post_order(data, tree, &mut ob) {
        Ok(root) => Some((*root.as_bytes(), ob)),
        Err(_) => None,
    }
}

/// `encode_ranges` of every chunk of the data with the outboard's hashes,
/// then `decode_ranges` of that stream against the root: `Unreadable`
/// when the outboard is too short to encode from, `Rejected` when some parent
/// pair or chunk group does not hash to what the tree above it expects,
/// `Verified` when every one does. Data checked against its own root hash
/// and outboard is verified. The in-memory outboard is sliced at each parent
/// node's position, which panics when it is shorter than one pair per parent
/// node: the precondition leaves that out.
#[verifier::external_body]
pub(crate) fn bao_check(root: &[u8; 32], data: &[u8], outboard: &[u8]) -> (r: TreeCheck)
    requires
        outboard@.len() >= 64 * tree_parent_count(data@.len()),
    ensures
        r == bao_check_of(root@, data@, outboard@),
        root@ == blake3_digest(data@) && outboard@ == bao_outboard_of(data@) ==> r
            == TreeCheck::Verified,
{
    let tree = BaoTree::new(data.len() as u64, BlockSize::from_chunk_log(4));
    let hash = blake3::Hash::from(*root);
    let ob = PostOrderMemOutboard { root: hash, tree, data: outboard };
    let ranges = ChunkRanges::all();
    let mut encoded: Vec<u8> = Vec::new();
    if encode_ranges(data, &ob, &ranges, &mut encoded).is_err() {
        return TreeCheck::Unreadable;
    }
    let mut target: Vec<u8> = Vec::new();
    match decode_ranges(encoded.as_slice(), &ranges, &mut target, EmptyOutboard { tree, root: hash }) {
        Ok(()) => TreeCheck::Verified,
        Err(_) => TreeCheck::Rejected,
    }
}

} // verus!
