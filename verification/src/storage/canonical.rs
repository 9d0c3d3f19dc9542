//! The canonical encoding of keyspace documents is unambiguous: every field
//! is fixed-width, tagged or framed by its length, so the bytes determine
//! the document; the same holds of grants. Each part is shown to be read
//! back from the front of a longer byte string.

use vstd::prelude::*;

use crate::auth::cbor::{lemma_pow256_values, pow256};
use vstd::utf8::encode_utf8;
use crate::seqs::{le_bytes, lemma_concat_cancel, lemma_le_bytes_injective, lemma_le_bytes_len};
use crate::storage::fingerprint::{lemma_fingerprint_ext, lemma_fingerprint_len, PublicKeyFingerprint};
use crate::storage::grant::{
    expiry_bytes, grant_bytes, grant_domain_tag, lemma_grant_id_ext, lemma_grant_id_len, parent_grant_bytes,
    AccessGrant, GrantId,
};
use crate::storage::keyspace::{
    caps_bytes, caps_items, cap_item, cap_list, doc_bytes, doc_domain_tag, fingerprints_bytes,
    len_prefixed, lemma_cap_item_prefix, lemma_cap_list_injective, lemma_cap_tags,
    lemma_caps_items_front, member_bytes, members_bytes, parent_bytes, policy_bytes,
    rotation_bytes, signatures_bytes, CapabilitySet, DecryptionPolicy, KeyspaceDoc,
    KeyspaceDocHash, KeyspaceId, Member, MemberCapability, RotationMode,
};

verus! {

/// A little-endian number of known width is read back from the front.
proof fn lemma_le_prefix(n: nat, m: nat, k: nat, x: Seq<u8>, y: Seq<u8>)
    requires
        le_bytes(n, k) + x == le_bytes(m, k) + y,
        n < pow256(k),
        m < pow256(k),
    ensures
        n == m,
        x == y,
{
    lemma_le_bytes_len(n, k);
    lemma_le_bytes_len(m, k);
    lemma_concat_cancel(le_bytes(n, k), x, le_bytes(m, k), y);
    lemma_le_bytes_injective(n, m, k);
}

/// A byte string framed by its length is read back from the front.
proof fn lemma_len_prefixed_prefix(a: Seq<u8>, b: Seq<u8>, x: Seq<u8>, y: Seq<u8>)
    requires
        len_prefixed(a) + x == len_prefixed(b) + y,
        a.len() < 0x1_0000_0000,
        b.len() < 0x1_0000_0000,
    ensures
        a == b,
        x == y,
{
    lemma_pow256_values();
    assert(len_prefixed(a) + x =~= le_bytes(a.len(), 4) + (a + x));
    assert(len_prefixed(b) + y =~= le_bytes(b.len(), 4) + (b + y));
    lemma_le_prefix(a.len(), b.len(), 4, a + x, b + y);
    lemma_concat_cancel(a, x, b, y);
}

/// A fixed-width part is read back from the front.
proof fn lemma_fixed_prefix(a: Seq<u8>, b: Seq<u8>, x: Seq<u8>, y: Seq<u8>)
    requires
        a + x == b + y,
        a.len() == b.len(),
    ensures
        a == b,
        x == y,
{
    lemma_concat_cancel(a, x, b, y);
}

/// Arrays of 32 bytes with the same bytes are equal.
proof fn lemma_array32_ext(a: [u8; 32], b: [u8; 32])
    requires
        a@ == b@,
    ensures
        a == b,
{
    broadcast use vstd::array::group_array_axioms;

    assert forall|i: int| 0 <= i < 32 implies a[i] == b[i] by {
        assert(a@[i] == b@[i]);
    }
    assert(a =~= b);
}

/// A parent link is read back from the front.
proof fn lemma_parent_prefix(p: Option<KeyspaceDocHash>, q: Option<KeyspaceDocHash>, x: Seq<u8>, y: Seq<u8>)
    requires
        parent_bytes(p) + x == parent_bytes(q) + y,
    ensures
        p == q,
        x == y,
{
    assert((parent_bytes(p) + x)[0] == parent_bytes(p)[0]);
    assert((parent_bytes(q) + y)[0] == parent_bytes(q)[0]);
    match (p, q) {
        (Some(h1), Some(h2)) => {
            crate::storage::keyspace::lemma_doc_hash_len(h1);
            crate::storage::keyspace::lemma_doc_hash_len(h2);
            assert(parent_bytes(p) + x =~= seq![1u8] + (h1@ + x));
            assert(parent_bytes(q) + y =~= seq![1u8] + (h2@ + y));
            lemma_concat_cancel(seq![1u8], h1@ + x, seq![1u8], h2@ + y);
            lemma_concat_cancel(h1@, x, h2@, y);
            crate::storage::keyspace::lemma_doc_hash_ext(h1, h2);
        },
        (None, None) => {
            lemma_concat_cancel(seq![0u8], x, seq![0u8], y);
        },
        _ => {},
    }
}

/// A decryption policy is read back from the front.
proof fn lemma_policy_prefix(p: DecryptionPolicy, q: DecryptionPolicy, x: Seq<u8>, y: Seq<u8>)
    requires
        policy_bytes(p) + x == policy_bytes(q) + y,
    ensures
        p == q,
        x == y,
{
    assert((policy_bytes(p) + x)[0] == policy_bytes(p)[0]);
    assert((policy_bytes(q) + y)[0] == policy_bytes(q)[0]);
    match (p, q) {
        (
            DecryptionPolicy::ThresholdShare { threshold: t1, total: n1, policy_ref: r1 },
            DecryptionPolicy::ThresholdShare { threshold: t2, total: n2, policy_ref: r2 },
        ) => {
            assert(r1@.len() == 32 && r2@.len() == 32);
            lemma_concat_cancel(policy_bytes(p), x, policy_bytes(q), y);
            assert(policy_bytes(p)[1] == t1 && policy_bytes(q)[1] == t2);
            assert(policy_bytes(p)[2] == n1 && policy_bytes(q)[2] == n2);
            assert(r1@ =~= policy_bytes(p).subrange(3, 35));
            assert(r2@ =~= policy_bytes(q).subrange(3, 35));
            lemma_array32_ext(r1, r2);
        },
        (DecryptionPolicy::Standalone, DecryptionPolicy::Standalone) => {
            lemma_concat_cancel(policy_bytes(p), x, policy_bytes(q), y);
        },
        _ => {},
    }
}

/// Concatenated fingerprints have 32 bytes each.
proof fn lemma_fingerprints_len(l: Seq<PublicKeyFingerprint>)
    ensures
        fingerprints_bytes(l).len() == 32 * l.len(),
    decreases l.len(),
{
    if l.len() > 0 {
        lemma_fingerprints_len(l.drop_last());
        lemma_fingerprint_len(l.last());
    }
}

/// Equal concatenations of equally many fingerprints are of the same
/// fingerprints.
proof fn lemma_fingerprints_injective(a: Seq<PublicKeyFingerprint>, b: Seq<PublicKeyFingerprint>)
    requires
        fingerprints_bytes(a) == fingerprints_bytes(b),
        a.len() == b.len(),
    ensures
        a == b,
    decreases a.len(),
{
    if a.len() > 0 {
        lemma_fingerprints_len(a.drop_last());
        lemma_fingerprints_len(b.drop_last());
        lemma_concat_cancel(
            fingerprints_bytes(a.drop_last()),
            a.last()@,
            fingerprints_bytes(b.drop_last()),
            b.last()@,
        );
        lemma_fingerprints_injective(a.drop_last(), b.drop_last());
        lemma_fingerprint_ext(a.last(), b.last());
        assert(a =~= a.drop_last().push(a.last()));
        assert(b =~= b.drop_last().push(b.last()));
    } else {
        assert(a =~= b);
    }
}

/// A list of fingerprints with its count is read back from the front.
proof fn lemma_counted_fingerprints_prefix(
    a: Seq<PublicKeyFingerprint>,
    b: Seq<PublicKeyFingerprint>,
    x: Seq<u8>,
    y: Seq<u8>,
)
    requires
        le_bytes(a.len(), 4) + fingerprints_bytes(a) + x == le_bytes(b.len(), 4) + fingerprints_bytes(b) + y,
        a.len() < 0x1_0000_0000,
        b.len() < 0x1_0000_0000,
    ensures
        a == b,
        x == y,
{
    lemma_pow256_values();
    assert(le_bytes(a.len(), 4) + fingerprints_bytes(a) + x =~= le_bytes(a.len(), 4) + (
    fingerprints_bytes(a) + x));
    assert(le_bytes(b.len(), 4) + fingerprints_bytes(b) + y =~= le_bytes(b.len(), 4) + (
    fingerprints_bytes(b) + y));
    lemma_le_prefix(a.len(), b.len(), 4, fingerprints_bytes(a) + x, fingerprints_bytes(b) + y);
    lemma_fingerprints_len(a);
    lemma_fingerprints_len(b);
    lemma_concat_cancel(fingerprints_bytes(a), x, fingerprints_bytes(b), y);
    lemma_fingerprints_injective(a, b);
}

/// Two rotation modes say the same: the same variant with the same data.
pub open spec fn same_mode(a: RotationMode, b: RotationMode) -> bool {
    match (a, b) {
        (RotationMode::Create, RotationMode::Create) => true,
        (RotationMode::Additive, RotationMode::Additive) => true,
        (RotationMode::Hygiene, RotationMode::Hygiene) => true,
        (RotationMode::Revoke { removed: r1 }, RotationMode::Revoke { removed: r2 }) => r1@ == r2@,
        (RotationMode::Burn { removed: r1 }, RotationMode::Burn { removed: r2 }) => r1@ == r2@,
        (RotationMode::Fork { new_id: i1 }, RotationMode::Fork { new_id: i2 }) => i1 == i2,
        (RotationMode::Tombstone, RotationMode::Tombstone) => true,
        _ => false,
    }
}

/// The lists a rotation mode carries have counts that fit the count field.
pub open spec fn mode_encodable(m: RotationMode) -> bool {
    match m {
        RotationMode::Revoke { removed } => removed@.len() < 0x1_0000_0000,
        RotationMode::Burn { removed } => removed@.len() < 0x1_0000_0000,
        _ => true,
    }
}

/// A rotation mode is read back from the front.
proof fn lemma_rotation_prefix(a: RotationMode, b: RotationMode, x: Seq<u8>, y: Seq<u8>)
    requires
        rotation_bytes(a) + x == rotation_bytes(b) + y,
        mode_encodable(a),
        mode_encodable(b),
    ensures
        same_mode(a, b),
        x == y,
{
    assert((rotation_bytes(a) + x)[0] == rotation_bytes(a)[0]);
    assert((rotation_bytes(b) + y)[0] == rotation_bytes(b)[0]);
    match (a, b) {
        (RotationMode::Revoke { removed: r1 }, RotationMode::Revoke { removed: r2 }) => {
            assert(rotation_bytes(a) + x =~= seq![4u8] + (le_bytes(r1@.len(), 4) + fingerprints_bytes(r1@) + x));
            assert(rotation_bytes(b) + y =~= seq![4u8] + (le_bytes(r2@.len(), 4) + fingerprints_bytes(r2@) + y));
            lemma_concat_cancel(
                seq![4u8],
                le_bytes(r1@.len(), 4) + fingerprints_bytes(r1@) + x,
                seq![4u8],
                le_bytes(r2@.len(), 4) + fingerprints_bytes(r2@) + y,
            );
            lemma_counted_fingerprints_prefix(r1@, r2@, x, y);
        },
        (RotationMode::Burn { removed: r1 }, RotationMode::Burn { removed: r2 }) => {
            assert(rotation_bytes(a) + x =~= seq![5u8] + (le_bytes(r1@.len(), 4) + fingerprints_bytes(r1@) + x));
            assert(rotation_bytes(b) + y =~= seq![5u8] + (le_bytes(r2@.len(), 4) + fingerprints_bytes(r2@) + y));
            lemma_concat_cancel(
                seq![5u8],
                le_bytes(r1@.len(), 4) + fingerprints_bytes(r1@) + x,
                seq![5u8],
                le_bytes(r2@.len(), 4) + fingerprints_bytes(r2@) + y,
            );
            lemma_counted_fingerprints_prefix(r1@, r2@, x, y);
        },
        (RotationMode::Fork { new_id: i1 }, RotationMode::Fork { new_id: i2 }) => {
            crate::storage::keyspace::lemma_keyspace_id_len(i1);
            crate::storage::keyspace::lemma_keyspace_id_len(i2);
            lemma_concat_cancel(rotation_bytes(a), x, rotation_bytes(b), y);
            assert(i1@ =~= rotation_bytes(a).subrange(1, 33));
            assert(i2@ =~= rotation_bytes(b).subrange(1, 33));
            crate::storage::keyspace::lemma_keyspace_id_ext(i1, i2);
        },
        (RotationMode::Create, RotationMode::Create) => {
            lemma_concat_cancel(rotation_bytes(a), x, rotation_bytes(b), y);
        },
        (RotationMode::Additive, RotationMode::Additive) => {
            lemma_concat_cancel(rotation_bytes(a), x, rotation_bytes(b), y);
        },
        (RotationMode::Hygiene, RotationMode::Hygiene) => {
            lemma_concat_cancel(rotation_bytes(a), x, rotation_bytes(b), y);
        },
        (RotationMode::Tombstone, RotationMode::Tombstone) => {
            lemma_concat_cancel(rotation_bytes(a), x, rotation_bytes(b), y);
        },
        _ => {},
    }
}

/// Framed capability tags are read back from the front, one by one.
proof fn lemma_caps_items_prefix(
    a: Seq<MemberCapability>,
    b: Seq<MemberCapability>,
    x: Seq<u8>,
    y: Seq<u8>,
)
    requires
        caps_items(a) + x == caps_items(b) + y,
        a.len() == b.len(),
    ensures
        a == b,
        x == y,
    decreases a.len(),
{
    if a.len() == 0 {
        assert(caps_items(a) =~= Seq::<u8>::empty());
        assert(caps_items(b) =~= Seq::<u8>::empty());
        assert(caps_items(a) + x =~= x);
        assert(caps_items(b) + y =~= y);
        assert(a =~= b);
    } else {
        lemma_caps_items_front(a);
        lemma_caps_items_front(b);
        let ra = caps_items(a.drop_first());
        let rb = caps_items(b.drop_first());
        assert(caps_items(a) + x =~= cap_item(a[0]) + (ra + x));
        assert(caps_items(b) + y =~= cap_item(b[0]) + (rb + y));
        lemma_cap_item_prefix(a[0], b[0], ra + x, rb + y);
        lemma_caps_items_prefix(a.drop_first(), b.drop_first(), x, y);
        assert(a =~= seq![a[0]] + a.drop_first());
        assert(b =~= seq![b[0]] + b.drop_first());
    }
}

/// A capability list has at most five entries.
proof fn lemma_cap_list_len(s: CapabilitySet)
    ensures
        cap_list(s).len() <= 5,
{
}

/// A capability set is read back from the front.
#[verifier::rlimit(40)]
proof fn lemma_caps_prefix(a: CapabilitySet, b: CapabilitySet, x: Seq<u8>, y: Seq<u8>)
    requires
        caps_bytes(a) + x == caps_bytes(b) + y,
    ensures
        a == b,
        x == y,
{
    let la = cap_list(a);
    let lb = cap_list(b);
    lemma_cap_list_len(a);
    lemma_cap_list_len(b);
    lemma_pow256_values();
    let ia = caps_items(la);
    let ib = caps_items(lb);
    assert(caps_bytes(a) == le_bytes(la.len(), 4) + ia);
    assert(caps_bytes(b) == le_bytes(lb.len(), 4) + ib);
    assert(caps_bytes(a) + x =~= le_bytes(la.len(), 4) + (ia + x));
    assert(caps_bytes(b) + y =~= le_bytes(lb.len(), 4) + (ib + y));
    lemma_le_prefix(la.len(), lb.len(), 4, ia + x, ib + y);
    lemma_caps_items_prefix(la, lb, x, y);
    lemma_cap_list_injective(a, b);
}

/// Concatenation regroups.
proof fn lemma_assoc(a: Seq<u8>, b: Seq<u8>, c: Seq<u8>)
    ensures
        (a + b) + c == a + (b + c),
{
    assert((a + b) + c =~= a + (b + c));
}

/// The encoding of a member, grouped from the front.
proof fn lemma_member_regroup(m: Member, x: Seq<u8>)
    ensures
        member_bytes(m) + x == m.fingerprint@ + (caps_bytes(m.capabilities) + (policy_bytes(
            m.decryption_policy,
        ) + (le_bytes(m.added_at as nat, 8) + (m.added_by@ + x)))),
{
    let f = m.fingerprint@;
    let c = caps_bytes(m.capabilities);
    let p = policy_bytes(m.decryption_policy);
    let l = le_bytes(m.added_at as nat, 8);
    let b = m.added_by@;
    assert(member_bytes(m) == f + c + p + l + b);
    lemma_assoc(f + c + p + l, b, x);
    lemma_assoc(f + c + p, l, b + x);
    lemma_assoc(f + c, p, l + (b + x));
    lemma_assoc(f, c, p + (l + (b + x)));
}

/// A member is read back from the front.
#[verifier::spinoff_prover]
#[verifier::rlimit(40)]
proof fn lemma_member_prefix(a: Member, b: Member, x: Seq<u8>, y: Seq<u8>)
    requires
        member_bytes(a) + x == member_bytes(b) + y,
    ensures
        a == b,
        x == y,
{
    lemma_pow256_values();
    lemma_fingerprint_len(a.fingerprint);
    lemma_fingerprint_len(b.fingerprint);
    lemma_fingerprint_len(a.added_by);
    lemma_fingerprint_len(b.added_by);
    lemma_member_regroup(a, x);
    lemma_member_regroup(b, y);
    let ta = le_bytes(a.added_at as nat, 8) + (a.added_by@ + x);
    let tb = le_bytes(b.added_at as nat, 8) + (b.added_by@ + y);
    let pa = policy_bytes(a.decryption_policy) + ta;
    let pb = policy_bytes(b.decryption_policy) + tb;
    let ca = caps_bytes(a.capabilities) + pa;
    let cb = caps_bytes(b.capabilities) + pb;
    lemma_concat_cancel(a.fingerprint@, ca, b.fingerprint@, cb);
    lemma_fingerprint_ext(a.fingerprint, b.fingerprint);
    lemma_caps_prefix(a.capabilities, b.capabilities, pa, pb);
    lemma_policy_prefix(a.decryption_policy, b.decryption_policy, ta, tb);
    lemma_le_prefix(a.added_at as nat, b.added_at as nat, 8, a.added_by@ + x, b.added_by@ + y);
    lemma_concat_cancel(a.added_by@, x, b.added_by@, y);
    lemma_fingerprint_ext(a.added_by, b.added_by);
}

/// The encoding of members, from the front.
proof fn lemma_members_front(l: Seq<Member>)
    requires
        l.len() > 0,
    ensures
        members_bytes(l) == member_bytes(l[0]) + members_bytes(l.drop_first()),
    decreases l.len(),
{
    if l.len() > 1 {
        lemma_members_front(l.drop_last());
        assert(l.drop_last().drop_first() =~= l.drop_first().drop_last());
        assert(l.drop_first().last() == l.last());
        assert(members_bytes(l) =~= member_bytes(l[0]) + members_bytes(l.drop_first()));
    } else {
        assert(l.drop_first() =~= Seq::<Member>::empty());
        assert(l.drop_last() =~= Seq::<Member>::empty());
        assert(members_bytes(l) =~= member_bytes(l[0]) + members_bytes(l.drop_first()));
    }
}

/// Equally many members are read back from the front.
proof fn lemma_members_prefix(a: Seq<Member>, b: Seq<Member>, x: Seq<u8>, y: Seq<u8>)
    requires
        members_bytes(a) + x == members_bytes(b) + y,
        a.len() == b.len(),
    ensures
        a == b,
        x == y,
    decreases a.len(),
{
    if a.len() == 0 {
        assert(members_bytes(a) + x =~= x);
        assert(members_bytes(b) + y =~= y);
        assert(a =~= b);
    } else {
        lemma_members_front(a);
        lemma_members_front(b);
        let ra = members_bytes(a.drop_first());
        let rb = members_bytes(b.drop_first());
        assert(members_bytes(a) + x =~= member_bytes(a[0]) + (ra + x));
        assert(members_bytes(b) + y =~= member_bytes(b[0]) + (rb + y));
        lemma_member_prefix(a[0], b[0], ra + x, rb + y);
        lemma_members_prefix(a.drop_first(), b.drop_first(), x, y);
        assert(a =~= seq![a[0]] + a.drop_first());
        assert(b =~= seq![b[0]] + b.drop_first());
    }
}

/// The bytes of each signature.
pub open spec fn sig_views(l: Seq<Vec<u8>>) -> Seq<Seq<u8>> {
    l.map_values(|v: Vec<u8>| v@)
}

/// Every signature's length fits the length field.
pub open spec fn sigs_encodable(l: Seq<Vec<u8>>) -> bool {
    forall|i: int| 0 <= i < l.len() ==> (#[trigger] l[i])@.len() < 0x1_0000_0000
}

/// The encoding of signatures, from the front.
proof fn lemma_signatures_front(l: Seq<Vec<u8>>)
    requires
        l.len() > 0,
    ensures
        signatures_bytes(l) == len_prefixed(l[0]@) + signatures_bytes(l.drop_first()),
    decreases l.len(),
{
    if l.len() > 1 {
        lemma_signatures_front(l.drop_last());
        assert(l.drop_last().drop_first() =~= l.drop_first().drop_last());
        assert(l.drop_first().last() == l.last());
        assert(signatures_bytes(l) =~= len_prefixed(l[0]@) + signatures_bytes(l.drop_first()));
    } else {
        assert(l.drop_first() =~= Seq::<Vec<u8>>::empty());
        assert(l.drop_last() =~= Seq::<Vec<u8>>::empty());
        assert(signatures_bytes(l) =~= len_prefixed(l[0]@) + signatures_bytes(l.drop_first()));
    }
}

/// Equally many signatures are read back from the front.
proof fn lemma_signatures_prefix(a: Seq<Vec<u8>>, b: Seq<Vec<u8>>, x: Seq<u8>, y: Seq<u8>)
    requires
        signatures_bytes(a) + x == signatures_bytes(b) + y,
        a.len() == b.len(),
        sigs_encodable(a),
        sigs_encodable(b),
    ensures
        sig_views(a) == sig_views(b),
        x == y,
    decreases a.len(),
{
    if a.len() == 0 {
        assert(signatures_bytes(a) + x =~= x);
        assert(signatures_bytes(b) + y =~= y);
        assert(sig_views(a) =~= sig_views(b));
    } else {
        lemma_signatures_front(a);
        lemma_signatures_front(b);
        let ra = signatures_bytes(a.drop_first());
        let rb = signatures_bytes(b.drop_first());
        assert(signatures_bytes(a) + x =~= len_prefixed(a[0]@) + (ra + x));
        assert(signatures_bytes(b) + y =~= len_prefixed(b[0]@) + (rb + y));
        assert(a[0]@.len() < 0x1_0000_0000 && b[0]@.len() < 0x1_0000_0000);
        lemma_len_prefixed_prefix(a[0]@, b[0]@, ra + x, rb + y);
        assert(sigs_encodable(a.drop_first())) by {
            assert forall|i: int| 0 <= i < a.drop_first().len() implies (#[trigger] a.drop_first()[i])@.len()
                < 0x1_0000_0000 by {
                assert(a.drop_first()[i] == a[i + 1]);
            }
        }
        assert(sigs_encodable(b.drop_first())) by {
            assert forall|i: int| 0 <= i < b.drop_first().len() implies (#[trigger] b.drop_first()[i])@.len()
                < 0x1_0000_0000 by {
                assert(b.drop_first()[i] == b[i + 1]);
            }
        }
        lemma_signatures_prefix(a.drop_first(), b.drop_first(), x, y);
        assert(sig_views(a) =~= seq![a[0]@] + sig_views(a.drop_first()));
        assert(sig_views(b) =~= seq![b[0]@] + sig_views(b.drop_first()));
    }
}

/// The lengths and counts of a document fit their four-byte fields.
pub open spec fn doc_encodable(d: KeyspaceDoc) -> bool {
    &&& mode_encodable(d.mode)
    &&& encode_utf8(d.name@).len() < 0x1_0000_0000
    &&& d.root_pk@.len() < 0x1_0000_0000
    &&& d.members@.len() < 0x1_0000_0000
    &&& d.signatures@.len() < 0x1_0000_0000
    &&& sigs_encodable(d.signatures@)
}

/// Two documents agree on every field.
pub open spec fn same_doc(a: KeyspaceDoc, b: KeyspaceDoc) -> bool {
    &&& a.id == b.id
    &&& a.version == b.version
    &&& a.parent == b.parent
    &&& same_mode(a.mode, b.mode)
    &&& a.name@ == b.name@
    &&& a.root_pk@ == b.root_pk@
    &&& a.epoch_pre_pk == b.epoch_pre_pk
    &&& a.epoch == b.epoch
    &&& a.members@ == b.members@
    &&& a.quorum == b.quorum
    &&& sig_views(a.signatures@) == sig_views(b.signatures@)
    &&& a.created_at == b.created_at
}

/// The document's fields after the fixed header, grouped from the front.
pub open spec fn doc_body(d: KeyspaceDoc) -> Seq<u8> {
    d.id@ + (le_bytes(d.version as nat, 8) + (parent_bytes(d.parent) + (rotation_bytes(d.mode) + (
    len_prefixed(encode_utf8(d.name@)) + (len_prefixed(d.root_pk@) + (d.epoch_pre_pk@ + (le_bytes(
        d.epoch as nat,
        8,
    ) + (le_bytes(d.members@.len(), 4) + (members_bytes(d.members@) + (seq![d.quorum] + (le_bytes(
        d.signatures@.len(),
        4,
    ) + (signatures_bytes(d.signatures@) + le_bytes(d.created_at as nat, 8)))))))))))))
}

/// The canonical bytes are the fixed header and the body.
#[verifier::rlimit(40)]
proof fn lemma_doc_regroup(d: KeyspaceDoc)
    ensures
        doc_bytes(d) == (doc_domain_tag() + le_bytes(1, 4)) + doc_body(d),
{
    let h = doc_domain_tag() + le_bytes(1, 4);
    let p1 = d.id@;
    let p2 = le_bytes(d.version as nat, 8);
    let p3 = parent_bytes(d.parent);
    let p4 = rotation_bytes(d.mode);
    let p5 = len_prefixed(encode_utf8(d.name@));
    let p6 = len_prefixed(d.root_pk@);
    let p7 = d.epoch_pre_pk@;
    let p8 = le_bytes(d.epoch as nat, 8);
    let p9 = le_bytes(d.members@.len(), 4);
    let p10 = members_bytes(d.members@);
    let p11 = seq![d.quorum];
    let p12 = le_bytes(d.signatures@.len(), 4);
    let p13 = signatures_bytes(d.signatures@);
    let p14 = le_bytes(d.created_at as nat, 8);
    assert(doc_bytes(d) == h + p1 + p2 + p3 + p4 + p5 + p6 + p7 + p8 + p9 + p10 + p11 + p12 + p13
        + p14);
    lemma_assoc(h + p1 + p2 + p3 + p4 + p5 + p6 + p7 + p8 + p9 + p10 + p11 + p12, p13, p14);
    lemma_assoc(h + p1 + p2 + p3 + p4 + p5 + p6 + p7 + p8 + p9 + p10 + p11, p12, p13 + p14);
    lemma_assoc(h + p1 + p2 + p3 + p4 + p5 + p6 + p7 + p8 + p9 + p10, p11, p12 + (p13 + p14));
    lemma_assoc(h + p1 + p2 + p3 + p4 + p5 + p6 + p7 + p8 + p9, p10, p11 + (p12 + (p13 + p14)));
    lemma_assoc(
        h + p1 + p2 + p3 + p4 + p5 + p6 + p7 + p8,
        p9,
        p10 + (p11 + (p12 + (p13 + p14))),
    );
    lemma_assoc(
        h + p1 + p2 + p3 + p4 + p5 + p6 + p7,
        p8,
        p9 + (p10 + (p11 + (p12 + (p13 + p14)))),
    );
    lemma_assoc(
        h + p1 + p2 + p3 + p4 + p5 + p6,
        p7,
        p8 + (p9 + (p10 + (p11 + (p12 + (p13 + p14))))),
    );
    lemma_assoc(
        h + p1 + p2 + p3 + p4 + p5,
        p6,
        p7 + (p8 + (p9 + (p10 + (p11 + (p12 + (p13 + p14)))))),
    );
    lemma_assoc(
        h + p1 + p2 + p3 + p4,
        p5,
        p6 + (p7 + (p8 + (p9 + (p10 + (p11 + (p12 + (p13 + p14))))))),
    );
    lemma_assoc(
        h + p1 + p2 + p3,
        p4,
        p5 + (p6 + (p7 + (p8 + (p9 + (p10 + (p11 + (p12 + (p13 + p14)))))))),
    );
    lemma_assoc(
        h + p1 + p2,
        p3,
        p4 + (p5 + (p6 + (p7 + (p8 + (p9 + (p10 + (p11 + (p12 + (p13 + p14))))))))),
    );
    lemma_assoc(
        h + p1,
        p2,
        p3 + (p4 + (p5 + (p6 + (p7 + (p8 + (p9 + (p10 + (p11 + (p12 + (p13 + p14)))))))))),
    );
    lemma_assoc(
        h,
        p1,
        p2 + (p3 + (p4 + (p5 + (p6 + (p7 + (p8 + (p9 + (p10 + (p11 + (p12 + (p13 + p14))))))))))),
    );
}

/// The canonical encoding of keyspace documents is unambiguous: documents
/// whose lengths and counts fit their four-byte fields and that have the
/// same canonical bytes agree on every field. (The document hash, BLAKE3 of
/// these bytes, therefore names one document.)
pub proof fn law_doc_bytes_injective(a: KeyspaceDoc, b: KeyspaceDoc)
    requires
        doc_bytes(a) == doc_bytes(b),
        doc_encodable(a),
        doc_encodable(b),
    ensures
        same_doc(a, b),
{
    lemma_pow256_values();
    let h = doc_domain_tag() + le_bytes(1, 4);
    lemma_doc_regroup(a);
    lemma_doc_regroup(b);
    lemma_concat_cancel(h, doc_body(a), h, doc_body(b));
    lemma_doc_body_injective(a, b);
}

/// The canonical bytes of every keyspace document begin with the domain tag
/// and then the format version, as four little-endian bytes.
pub proof fn law_doc_bytes_header(d: KeyspaceDoc)
    ensures
        doc_bytes(d).take(25) == doc_domain_tag() + le_bytes(KeyspaceDoc::FORMAT_VERSION as nat, 4),
{
    let h = doc_domain_tag() + le_bytes(1, 4);
    lemma_le_bytes_len(1, 4);
    lemma_doc_regroup(d);
    assert(doc_bytes(d).take(25) =~= h);
}

/// The bodies determine the fields.
#[verifier::spinoff_prover]
#[verifier::rlimit(40)]
proof fn lemma_doc_body_injective(a: KeyspaceDoc, b: KeyspaceDoc)
    requires
        doc_body(a) == doc_body(b),
        doc_encodable(a),
        doc_encodable(b),
    ensures
        same_doc(a, b),
{
    lemma_pow256_values();
    crate::storage::keyspace::lemma_keyspace_id_len(a.id);
    crate::storage::keyspace::lemma_keyspace_id_len(b.id);
    let t14a = le_bytes(a.created_at as nat, 8);
    let t14b = le_bytes(b.created_at as nat, 8);
    let t13a = signatures_bytes(a.signatures@) + t14a;
    let t13b = signatures_bytes(b.signatures@) + t14b;
    let t12a = le_bytes(a.signatures@.len(), 4) + t13a;
    let t12b = le_bytes(b.signatures@.len(), 4) + t13b;
    let t11a = seq![a.quorum] + t12a;
    let t11b = seq![b.quorum] + t12b;
    let t10a = members_bytes(a.members@) + t11a;
    let t10b = members_bytes(b.members@) + t11b;
    let t9a = le_bytes(a.members@.len(), 4) + t10a;
    let t9b = le_bytes(b.members@.len(), 4) + t10b;
    let t8a = le_bytes(a.epoch as nat, 8) + t9a;
    let t8b = le_bytes(b.epoch as nat, 8) + t9b;
    let t7a = a.epoch_pre_pk@ + t8a;
    let t7b = b.epoch_pre_pk@ + t8b;
    let t6a = len_prefixed(a.root_pk@) + t7a;
    let t6b = len_prefixed(b.root_pk@) + t7b;
    let t5a = len_prefixed(encode_utf8(a.name@)) + t6a;
    let t5b = len_prefixed(encode_utf8(b.name@)) + t6b;
    let t4a = rotation_bytes(a.mode) + t5a;
    let t4b = rotation_bytes(b.mode) + t5b;
    let t3a = parent_bytes(a.parent) + t4a;
    let t3b = parent_bytes(b.parent) + t4b;
    let t2a = le_bytes(a.version as nat, 8) + t3a;
    let t2b = le_bytes(b.version as nat, 8) + t3b;
    assert(doc_body(a) == a.id@ + t2a);
    assert(doc_body(b) == b.id@ + t2b);
    lemma_concat_cancel(a.id@, t2a, b.id@, t2b);
    crate::storage::keyspace::lemma_keyspace_id_ext(a.id, b.id);
    lemma_le_prefix(a.version as nat, b.version as nat, 8, t3a, t3b);
    lemma_parent_prefix(a.parent, b.parent, t4a, t4b);
    lemma_rotation_prefix(a.mode, b.mode, t5a, t5b);
    lemma_len_prefixed_prefix(encode_utf8(a.name@), encode_utf8(b.name@), t6a, t6b);
    vstd::utf8::encode_utf8_decode_utf8(a.name@);
    vstd::utf8::encode_utf8_decode_utf8(b.name@);
    lemma_len_prefixed_prefix(a.root_pk@, b.root_pk@, t7a, t7b);
    lemma_concat_cancel(a.epoch_pre_pk@, t8a, b.epoch_pre_pk@, t8b);
    lemma_array32_ext(a.epoch_pre_pk, b.epoch_pre_pk);
    lemma_le_prefix(a.epoch as nat, b.epoch as nat, 8, t9a, t9b);
    lemma_le_prefix(a.members@.len(), b.members@.len(), 4, t10a, t10b);
    lemma_members_prefix(a.members@, b.members@, t11a, t11b);
    lemma_concat_cancel(seq![a.quorum], t12a, seq![b.quorum], t12b);
    assert(seq![a.quorum][0] == seq![b.quorum][0]);
    lemma_le_prefix(a.signatures@.len(), b.signatures@.len(), 4, t13a, t13b);
    lemma_signatures_prefix(a.signatures@, b.signatures@, t14a, t14b);
    assert(t14a + Seq::<u8>::empty() =~= t14a);
    assert(t14b + Seq::<u8>::empty() =~= t14b);
    lemma_le_prefix(a.created_at as nat, b.created_at as nat, 8, Seq::empty(), Seq::empty());
}

/// An expiry is read back from the front.
proof fn lemma_expiry_prefix(a: Option<u64>, b: Option<u64>, x: Seq<u8>, y: Seq<u8>)
    requires
        expiry_bytes(a) + x == expiry_bytes(b) + y,
    ensures
        a == b,
        x == y,
{
    lemma_pow256_values();
    assert((expiry_bytes(a) + x)[0] == expiry_bytes(a)[0]);
    assert((expiry_bytes(b) + y)[0] == expiry_bytes(b)[0]);
    match (a, b) {
        (Some(t1), Some(t2)) => {
            assert(expiry_bytes(a) + x =~= seq![1u8] + (le_bytes(t1 as nat, 8) + x));
            assert(expiry_bytes(b) + y =~= seq![1u8] + (le_bytes(t2 as nat, 8) + y));
            lemma_concat_cancel(seq![1u8], le_bytes(t1 as nat, 8) + x, seq![1u8], le_bytes(t2 as nat, 8) + y);
            lemma_le_prefix(t1 as nat, t2 as nat, 8, x, y);
        },
        (None, None) => {
            lemma_concat_cancel(seq![0u8], x, seq![0u8], y);
        },
        _ => {},
    }
}

/// The grant's fields after the fixed header, grouped from the front.
pub open spec fn grant_body(g: AccessGrant) -> Seq<u8> {
    le_bytes(g.version as nat, 4) + (g.keyspace_id@ + (le_bytes(g.keyspace_version as nat, 8) + (
    g.subject@ + (g.issuer@ + (caps_bytes(g.capabilities) + (expiry_bytes(g.expires_at)
        + (seq![g.delegation_depth] + (parent_grant_bytes(g.parent_grant) + le_bytes(
        g.created_at as nat,
        8,
    )))))))))
}

/// The canonical bytes of a grant are the domain tag and the body.
#[verifier::rlimit(40)]
proof fn lemma_grant_regroup(g: AccessGrant)
    ensures
        grant_bytes(g) == grant_domain_tag() + grant_body(g),
{
    let h = grant_domain_tag();
    let p1 = le_bytes(g.version as nat, 4);
    let p2 = g.keyspace_id@;
    let p3 = le_bytes(g.keyspace_version as nat, 8);
    let p4 = g.subject@;
    let p5 = g.issuer@;
    let p6 = caps_bytes(g.capabilities);
    let p7 = expiry_bytes(g.expires_at);
    let p8 = seq![g.delegation_depth];
    let p9 = parent_grant_bytes(g.parent_grant);
    let p10 = le_bytes(g.created_at as nat, 8);
    assert(grant_bytes(g) == h + p1 + p2 + p3 + p4 + p5 + p6 + p7 + p8 + p9 + p10);
    lemma_assoc(h + p1 + p2 + p3 + p4 + p5 + p6 + p7 + p8, p9, p10);
    lemma_assoc(h + p1 + p2 + p3 + p4 + p5 + p6 + p7, p8, p9 + p10);
    lemma_assoc(h + p1 + p2 + p3 + p4 + p5 + p6, p7, p8 + (p9 + p10));
    lemma_assoc(h + p1 + p2 + p3 + p4 + p5, p6, p7 + (p8 + (p9 + p10)));
    lemma_assoc(h + p1 + p2 + p3 + p4, p5, p6 + (p7 + (p8 + (p9 + p10))));
    lemma_assoc(h + p1 + p2 + p3, p4, p5 + (p6 + (p7 + (p8 + (p9 + p10)))));
    lemma_assoc(h + p1 + p2, p3, p4 + (p5 + (p6 + (p7 + (p8 + (p9 + p10))))));
    lemma_assoc(h + p1, p2, p3 + (p4 + (p5 + (p6 + (p7 + (p8 + (p9 + p10)))))));
    lemma_assoc(h, p1, p2 + (p3 + (p4 + (p5 + (p6 + (p7 + (p8 + (p9 + p10))))))));
}

/// A parent grant link is read back from the front.
proof fn lemma_parent_grant_prefix(p: Option<GrantId>, q: Option<GrantId>, x: Seq<u8>, y: Seq<u8>)
    requires
        parent_grant_bytes(p) + x == parent_grant_bytes(q) + y,
    ensures
        p == q,
        x == y,
{
    assert((parent_grant_bytes(p) + x)[0] == parent_grant_bytes(p)[0]);
    assert((parent_grant_bytes(q) + y)[0] == parent_grant_bytes(q)[0]);
    match (p, q) {
        (Some(h1), Some(h2)) => {
            lemma_grant_id_len(h1);
            lemma_grant_id_len(h2);
            assert(parent_grant_bytes(p) + x =~= seq![1u8] + (h1@ + x));
            assert(parent_grant_bytes(q) + y =~= seq![1u8] + (h2@ + y));
            lemma_concat_cancel(seq![1u8], h1@ + x, seq![1u8], h2@ + y);
            lemma_concat_cancel(h1@, x, h2@, y);
            lemma_grant_id_ext(h1, h2);
        },
        (None, None) => {
            lemma_concat_cancel(seq![0u8], x, seq![0u8], y);
        },
        _ => {},
    }
}

/// The canonical bytes of a grant, and so its id, determine every field
/// but the signature, which they leave out.
#[verifier::rlimit(40)]
#[verifier::spinoff_prover]
pub proof fn law_grant_bytes_injective(a: AccessGrant, b: AccessGrant)
    requires
        grant_bytes(a) == grant_bytes(b),
    ensures
        a.version == b.version,
        a.keyspace_id == b.keyspace_id,
        a.keyspace_version == b.keyspace_version,
        a.subject == b.subject,
        a.issuer == b.issuer,
        a.capabilities == b.capabilities,
        a.expires_at == b.expires_at,
        a.delegation_depth == b.delegation_depth,
        a.parent_grant == b.parent_grant,
        a.created_at == b.created_at,
{
    lemma_pow256_values();
    lemma_grant_regroup(a);
    lemma_grant_regroup(b);
    lemma_concat_cancel(grant_domain_tag(), grant_body(a), grant_domain_tag(), grant_body(b));
    lemma_fingerprint_len(a.subject);
    lemma_fingerprint_len(b.subject);
    lemma_fingerprint_len(a.issuer);
    lemma_fingerprint_len(b.issuer);
    let t10a = le_bytes(a.created_at as nat, 8);
    let t10b = le_bytes(b.created_at as nat, 8);
    let t9a = parent_grant_bytes(a.parent_grant) + t10a;
    let t9b = parent_grant_bytes(b.parent_grant) + t10b;
    let t8a = seq![a.delegation_depth] + t9a;
    let t8b = seq![b.delegation_depth] + t9b;
    let t7a = expiry_bytes(a.expires_at) + t8a;
    let t7b = expiry_bytes(b.expires_at) + t8b;
    let t6a = caps_bytes(a.capabilities) + t7a;
    let t6b = caps_bytes(b.capabilities) + t7b;
    let t5a = a.issuer@ + t6a;
    let t5b = b.issuer@ + t6b;
    let t4a = a.subject@ + t5a;
    let t4b = b.subject@ + t5b;
    let t3a = le_bytes(a.keyspace_version as nat, 8) + t4a;
    let t3b = le_bytes(b.keyspace_version as nat, 8) + t4b;
    let t2a = a.keyspace_id@ + t3a;
    let t2b = b.keyspace_id@ + t3b;
    lemma_le_prefix(a.version as nat, b.version as nat, 4, t2a, t2b);
    lemma_concat_cancel(a.keyspace_id@, t3a, b.keyspace_id@, t3b);
    lemma_array32_ext(a.keyspace_id, b.keyspace_id);
    lemma_le_prefix(a.keyspace_version as nat, b.keyspace_version as nat, 8, t4a, t4b);
    lemma_concat_cancel(a.subject@, t5a, b.subject@, t5b);
    lemma_fingerprint_ext(a.subject, b.subject);
    lemma_concat_cancel(a.issuer@, t6a, b.issuer@, t6b);
    lemma_fingerprint_ext(a.issuer, b.issuer);
    lemma_caps_prefix(a.capabilities, b.capabilities, t7a, t7b);
    lemma_expiry_prefix(a.expires_at, b.expires_at, t8a, t8b);
    lemma_concat_cancel(seq![a.delegation_depth], t9a, seq![b.delegation_depth], t9b);
    assert(seq![a.delegation_depth][0] == seq![b.delegation_depth][0]);
    lemma_parent_grant_prefix(a.parent_grant, b.parent_grant, t10a, t10b);
    assert(t10a + Seq::<u8>::empty() =~= t10a);
    assert(t10b + Seq::<u8>::empty() =~= t10b);
    lemma_le_prefix(a.created_at as nat, b.created_at as nat, 8, Seq::empty(), Seq::empty());
}

} // verus!
