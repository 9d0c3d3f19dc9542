//! The envelope form of a capability: the fields an envelope carries, how
//! they are checked when read back, and signing and verification of the
//! wrapped envelope.
//!
//! The subject of the inner envelope is a map holding `type`,
//! `format-version`, `subject`, `subject-kind`, `granted-to` and `issuer`.
//! Assertions carry `permissions`, `expires-at` (CBOR tag 1) and `note`, all
//! salted, and an unsalted `parent`. A signed capability wraps the inner
//! envelope and adds `ed25519-signature` and, optionally, `mldsa-signature`
//! over the digest of the wrapped subject.

use vstd::prelude::*;

use vstd::utf8::is_ascii_chars;

use crate::storage::nesting::{
    cbor_nesting_within, envelope_nesting_ok, lemma_nesting_mono, nesting_ok, MAX_ENVELOPE_NESTING,
};

use crate::foreign::ed25519::{
    ed25519_key_ok, ed25519_public_of, ed25519_signature_of, ed25519_verifies,
};
use crate::foreign::envelope::{
    cbor_subject_digest, envelope_add_bytes_cbor, envelope_add_tagged_cbor,
    envelope_add_text_cbor, envelope_add_text_list_cbor, envelope_bytes_object,
    envelope_bytes_object_of, envelope_map_bytes, envelope_map_bytes_of, envelope_map_text,
    envelope_map_text_of, envelope_map_u32, envelope_map_u32_of, envelope_object_leaf,
    envelope_object_leaf_of, envelope_of_map_cbor, envelope_optional_bytes,
    envelope_optional_bytes_of, envelope_optional_text, envelope_optional_text_of,
    envelope_subject_digest_of, envelope_subject_shape, envelope_subject_shape_of,
    envelope_text_list, envelope_text_list_of, envelope_unwrapped, envelope_unwrapped_of,
    envelope_wrap_cbor, map_insert_bytes, map_insert_text, map_insert_u32, new_map, stored_text,
    stored_texts, cbor_map_entries, MapEntry,
};
use crate::foreign::clock::unix_now;
use crate::foreign::text::{vec_to_array32, vec_to_array64};
use crate::proxy::sign::{
    ml_dsa_part_ok, sign_message, signature_accepted, verify_message, MultiSig, SigningKeys,
    VerifyPolicy, VerifyingKeys,
};
use crate::seqs::to_vec;
use crate::storage::capability::{subject_kind_tag, Capability, SubjectKind};
use crate::storage::error::{AuthError, AuthResult};
use crate::storage::fingerprint::PublicKeyFingerprint;
use crate::storage::keyspace::{
    ascii_lower_text, cap_list, cap_tag, has_cap, lemma_cap_list_contains, lemma_cap_tag_injective,
    lemma_cap_tag_lower, tags_name, tags_of, CapabilitySet, Permission,
};

verus! {

/// The `type` of a capability envelope.
pub const CAPABILITY_TYPE: &'static str = "recrypt.capability";

/// What an envelope's subject is, as far as a capability reader cares: no
/// leaf, a leaf holding something other than a map, or a leaf holding a map.
#[derive(Clone, Copy, Debug, PartialEq, Eq, Structural)]
pub enum SubjectShape {
    NotLeaf,
    NotMap,
    Entries,
}

/// The leaf of an assertion object, as far as a tagged number goes.
#[derive(Clone, Copy, Debug, PartialEq, Eq, Structural)]
pub enum LeafShape {
    /// The object is no leaf.
    NotLeaf,
    /// A tagged item: its tag and, when the item is an unsigned integer,
    /// that integer.
    Tagged { tag: u64, unsigned: Option<u64> },
    /// Any other leaf.
    Other,
}

/// What a capability reader finds in an envelope, as plain values. A field
/// is `None` when the entry or assertion is absent or of another type.
pub struct CapabilityFields {
    pub shape: SubjectShape,
    pub type_tag: Option<String>,
    pub format_version: Option<u32>,
    pub subject: Option<Vec<u8>>,
    pub subject_kind: Option<String>,
    pub granted_to: Option<Vec<u8>>,
    pub issuer: Option<Vec<u8>>,
    pub permissions: Option<Vec<String>>,
    pub expires_at: Option<LeafShape>,
    pub note: Option<String>,
    pub parent: Option<Vec<u8>>,
}

/// The model of [`CapabilityFields`]: each field by its value.
pub struct FieldsView {
    pub shape: SubjectShape,
    pub type_tag: Option<Seq<char>>,
    pub format_version: Option<u32>,
    pub subject: Option<Seq<u8>>,
    pub subject_kind: Option<Seq<char>>,
    pub granted_to: Option<Seq<u8>>,
    pub issuer: Option<Seq<u8>>,
    pub permissions: Option<Seq<Seq<char>>>,
    pub expires_at: Option<LeafShape>,
    pub note: Option<Seq<char>>,
    pub parent: Option<Seq<u8>>,
}

/// A list of texts, by their characters.
pub open spec fn texts(l: Seq<String>) -> Seq<Seq<char>> {
    l.map_values(|s: String| s@)
}

impl View for CapabilityFields {
    type V = FieldsView;

    open spec fn view(&self) -> FieldsView {
        FieldsView {
            shape: self.shape,
            type_tag: text_view(self.type_tag),
            format_version: self.format_version,
            subject: bytes_view(self.subject),
            subject_kind: text_view(self.subject_kind),
            granted_to: bytes_view(self.granted_to),
            issuer: bytes_view(self.issuer),
            permissions: match self.permissions {
                Some(l) => Some(texts(l@)),
                None => None,
            },
            expires_at: self.expires_at,
            note: text_view(self.note),
            parent: bytes_view(self.parent),
        }
    }
}

/// The fields an envelope whose subject has the shape, but no map, holds.
pub open spec fn empty_fields(shape: SubjectShape) -> FieldsView {
    FieldsView {
        shape,
        type_tag: None,
        format_version: None,
        subject: None,
        subject_kind: None,
        granted_to: None,
        issuer: None,
        permissions: None,
        expires_at: None,
        note: None,
        parent: None,
    }
}

/// What a capability reader finds in the envelope that the bytes encode:
/// the subject's shape, the entries of its map, and the objects of the
/// `permissions`, `expires-at`, `note` and `parent` assertions; `None` when
/// the bytes encode no envelope.
pub open spec fn envelope_fields_of(b: Seq<u8>) -> Option<FieldsView> {
    match envelope_subject_shape_of(b) {
        None => None,
        Some(SubjectShape::Entries) => Some(
            FieldsView {
                shape: SubjectShape::Entries,
                type_tag: envelope_map_text_of(b, "type"@),
                format_version: envelope_map_u32_of(b, "format-version"@),
                subject: envelope_map_bytes_of(b, "subject"@),
                subject_kind: envelope_map_text_of(b, "subject-kind"@),
                granted_to: envelope_map_bytes_of(b, "granted-to"@),
                issuer: envelope_map_bytes_of(b, "issuer"@),
                permissions: envelope_text_list_of(b, "permissions"@),
                expires_at: envelope_object_leaf_of(b, "expires-at"@),
                note: envelope_optional_text_of(b, "note"@),
                parent: envelope_optional_bytes_of(b, "parent"@),
            },
        ),
        Some(shape) => Some(empty_fields(shape)),
    }
}

/// Every way decoding a capability envelope can fail. Each variant names the
/// field concerned.
#[derive(Debug)]
pub enum WireError {
    Envelope(&'static str),
    MissingField(&'static str),
    WrongType { expected: &'static str, actual: String },
    VersionMismatch { expected: u32, actual: u32 },
    InvalidFormat(&'static str),
}

/// The model of a [`WireError`].
pub enum WireFault {
    Envelope(Seq<char>),
    MissingField(Seq<char>),
    WrongType { expected: Seq<char>, actual: Seq<char> },
    VersionMismatch { expected: u32, actual: u32 },
    InvalidFormat(Seq<char>),
}

impl View for WireError {
    type V = WireFault;

    open spec fn view(&self) -> WireFault {
        match self {
            WireError::Envelope(s) => WireFault::Envelope(s@),
            WireError::MissingField(s) => WireFault::MissingField(s@),
            WireError::WrongType { expected, actual } => WireFault::WrongType {
                expected: expected@,
                actual: actual@,
            },
            WireError::VersionMismatch { expected, actual } => WireFault::VersionMismatch {
                expected: *expected,
                actual: *actual,
            },
            WireError::InvalidFormat(s) => WireFault::InvalidFormat(s@),
        }
    }
}

/// The optional field holds 32 bytes.
pub open spec fn is_32_bytes(b: Option<Seq<u8>>) -> bool {
    b matches Some(v) && v.len() == 32
}

/// The tag is a subject kind's.
pub open spec fn known_kind(s: Seq<char>) -> bool {
    exists|k: SubjectKind| subject_kind_tag(k) == s
}

/// The `expires-at` assertion is unusable: a leaf that is no tag-1 unsigned
/// integer.
pub open spec fn expiry_fault(e: Option<LeafShape>) -> Option<WireFault> {
    match e {
        Some(LeafShape::NotLeaf) => Some(WireFault::Envelope("expires-at"@)),
        Some(LeafShape::Tagged { tag, unsigned }) => if tag != 1 {
            Some(WireFault::InvalidFormat("expires-at is not CBOR tag 1"@))
        } else if unsigned is None {
            Some(WireFault::InvalidFormat("expires-at tag 1 inner is not unsigned"@))
        } else {
            None
        },
        Some(LeafShape::Other) => Some(WireFault::InvalidFormat("expires-at is not CBOR tag 1"@)),
        None => None,
    }
}

/// The expiry that a usable `expires-at` assertion gives.
pub open spec fn expiry_value(e: Option<LeafShape>) -> Option<u64> {
    match e {
        Some(LeafShape::Tagged { tag, unsigned: Some(v) }) => if tag == 1 {
            Some(v)
        } else {
            None
        },
        _ => None,
    }
}

/// Why the fields are no capability, checked in the order the reader checks
/// them; `None` when they are one.
pub open spec fn fields_fault(f: FieldsView) -> Option<WireFault> {
    if f.shape == SubjectShape::NotLeaf {
        Some(WireFault::Envelope("subject leaf"@))
    } else if f.shape == SubjectShape::NotMap {
        Some(WireFault::Envelope("subject is not a map"@))
    } else if f.type_tag is None {
        Some(WireFault::MissingField("type"@))
    } else if f.type_tag->0 != CAPABILITY_TYPE@ {
        Some(WireFault::WrongType { expected: CAPABILITY_TYPE@, actual: f.type_tag->0 })
    } else if f.format_version is None {
        Some(WireFault::MissingField("format-version"@))
    } else if f.format_version->0 != Capability::FORMAT_VERSION {
        Some(
            WireFault::VersionMismatch {
                expected: Capability::FORMAT_VERSION,
                actual: f.format_version->0,
            },
        )
    } else if f.subject is None {
        Some(WireFault::MissingField("subject"@))
    } else if !is_32_bytes(f.subject) {
        Some(WireFault::InvalidFormat("subject must be 32 bytes"@))
    } else if f.subject_kind is None {
        Some(WireFault::MissingField("subject-kind"@))
    } else if !known_kind(f.subject_kind->0) {
        Some(WireFault::InvalidFormat("unknown subject-kind"@))
    } else if f.granted_to is None {
        Some(WireFault::MissingField("granted-to"@))
    } else if !is_32_bytes(f.granted_to) {
        Some(WireFault::InvalidFormat("granted-to must be 32 bytes"@))
    } else if f.issuer is None {
        Some(WireFault::MissingField("issuer"@))
    } else if !is_32_bytes(f.issuer) {
        Some(WireFault::InvalidFormat("issuer must be 32 bytes"@))
    } else if expiry_fault(f.expires_at) is Some {
        expiry_fault(f.expires_at)
    } else if f.parent is Some && !is_32_bytes(f.parent) {
        Some(WireFault::InvalidFormat("parent must be 32 bytes"@))
    } else {
        None
    }
}

/// Whether one of the texts is the tag of `c`, ASCII case ignored.
pub open spec fn texts_name(t: Seq<Seq<char>>, c: Permission) -> bool {
    exists|i: int| 0 <= i < t.len() && cap_tag(c) == ascii_lower_text(#[trigger] t[i])
}

/// The texts are the tags of the capabilities, in order.
pub open spec fn texts_of(t: Seq<Seq<char>>, caps: Seq<Permission>) -> bool {
    t.len() == caps.len() && forall|i: int| 0 <= i < caps.len() ==> #[trigger] t[i] == cap_tag(
        caps[i],
    )
}

/// Naming a tag does not depend on how the texts are held.
proof fn lemma_texts_name(l: Seq<String>)
    ensures
        forall|c: Permission| texts_name(texts(l), c) <==> tags_name(l, c),
{
    assert forall|c: Permission| texts_name(texts(l), c) <==> tags_name(l, c) by {
        if texts_name(texts(l), c) {
            let k = choose|k: int| 0 <= k < texts(l).len() && cap_tag(c) == ascii_lower_text(
                #[trigger] texts(l)[k],
            );
            assert(texts(l)[k] == l[k]@);
        }
        if tags_name(l, c) {
            let k = choose|k: int| 0 <= k < l.len() && cap_tag(c) == ascii_lower_text(
                #[trigger] l[k]@,
            );
            assert(texts(l)[k] == l[k]@);
        }
    }
}

/// Writing the tags does not depend on how the texts are held.
proof fn lemma_texts_of(l: Seq<String>, caps: Seq<Permission>)
    requires
        tags_of(l, caps),
    ensures
        texts_of(texts(l), caps),
{
    assert forall|i: int| 0 <= i < caps.len() implies #[trigger] texts(l)[i] == cap_tag(caps[i]) by {
        assert(l[i]@ == cap_tag(caps[i]));
    }
}

/// Reading back the tags of a set names exactly the set's members.
proof fn lemma_texts_roundtrip(s: CapabilitySet, t: Seq<Seq<char>>)
    requires
        texts_of(t, cap_list(s)),
    ensures
        forall|c: Permission| texts_name(t, c) <==> has_cap(s, c),
{
    lemma_cap_list_contains(s);
    let l = cap_list(s);
    assert forall|c: Permission| texts_name(t, c) <==> has_cap(s, c) by {
        if texts_name(t, c) {
            let k = choose|k: int| 0 <= k < t.len() && cap_tag(c) == ascii_lower_text(#[trigger] t[k]);
            assert(t[k] == cap_tag(l[k]));
            lemma_cap_tag_lower(l[k]);
            lemma_cap_tag_injective(c, l[k]);
        }
        if has_cap(s, c) {
            let k = choose|k: int| 0 <= k < l.len() && l[k] == c;
            assert(t[k] == cap_tag(l[k]));
            lemma_cap_tag_lower(c);
        }
    }
}

/// The permissions the fields list: the capabilities whose tags occur, ASCII
/// case ignored; none when the assertion is unusable.
pub open spec fn lists_permission(p: Option<Seq<Seq<char>>>, c: Permission) -> bool {
    p matches Some(l) && texts_name(l, c)
}

/// An optional text, by its characters.
pub open spec fn text_view(t: Option<String>) -> Option<Seq<char>> {
    match t {
        Some(s) => Some(s@),
        None => None,
    }
}

/// An optional byte string, by its bytes.
pub open spec fn bytes_view(b: Option<Vec<u8>>) -> Option<Seq<u8>> {
    match b {
        Some(v) => Some(v@),
        None => None,
    }
}

/// An optional 32-byte array, by its bytes.
pub open spec fn digest_view(b: Option<[u8; 32]>) -> Option<Seq<u8>> {
    match b {
        Some(a) => Some(a@),
        None => None,
    }
}

/// The capability holds what the (fault-free) fields carry.
pub open spec fn read_from(f: FieldsView, c: Capability) -> bool {
    &&& c.format_version == f.format_version->0
    &&& c.subject@ == f.subject->0
    &&& subject_kind_tag(c.subject_kind) == f.subject_kind->0
    &&& c.granted_to@ == f.granted_to->0
    &&& c.issuer@ == f.issuer->0
    &&& forall|p: Permission| has_cap(c.permissions, p) <==> lists_permission(f.permissions, p)
    &&& c.expires_at == expiry_value(f.expires_at)
    &&& text_view(c.note) == f.note
    &&& digest_view(c.parent) == f.parent
}

/// The fields are what the capability writes: its map entries, its
/// permission tags in capability order, its expiry under tag 1, its note and
/// its parent.
pub open spec fn written_by(c: Capability, f: FieldsView) -> bool {
    &&& f.shape == SubjectShape::Entries
    &&& f.type_tag == Some(CAPABILITY_TYPE@)
    &&& f.format_version == Some(c.format_version)
    &&& f.subject == Some(c.subject@)
    &&& f.subject_kind == Some(subject_kind_tag(c.subject_kind))
    &&& f.granted_to == Some(c.granted_to@)
    &&& f.issuer == Some(c.issuer@)
    &&& f.permissions matches Some(l) && texts_of(l, cap_list(c.permissions))
    &&& f.expires_at == (match c.expires_at {
        Some(t) => Some(LeafShape::Tagged { tag: 1, unsigned: Some(t) }),
        None => None,
    })
    &&& f.note == text_view(c.note)
    &&& f.parent == digest_view(c.parent)
}

/// The result is the reader's verdict on the fields: the first fault, or
/// the capability they carry.
pub open spec fn reading_of(f: FieldsView, r: core::result::Result<Capability, WireError>) -> bool {
    match r {
        Ok(c) => fields_fault(f) is None && read_from(f, c),
        Err(e) => fields_fault(f) == Some(e@),
    }
}

/// Two capabilities agree on every field.
pub open spec fn same_capability(a: Capability, b: Capability) -> bool {
    &&& a.format_version == b.format_version
    &&& a.subject@ == b.subject@
    &&& a.subject_kind == b.subject_kind
    &&& a.granted_to@ == b.granted_to@
    &&& a.issuer@ == b.issuer@
    &&& a.permissions == b.permissions
    &&& a.expires_at == b.expires_at
    &&& text_view(a.note) == text_view(b.note)
    &&& digest_view(a.parent) == digest_view(b.parent)
}

/// Subject kinds have distinct tags.
proof fn lemma_kind_tag_injective(a: SubjectKind, b: SubjectKind)
    requires
        subject_kind_tag(a) == subject_kind_tag(b),
    ensures
        a == b,
{
    reveal_strlit("file");
    reveal_strlit("keyspace");
    reveal_strlit("account");
    assert(subject_kind_tag(a).len() == subject_kind_tag(b).len());
    assert("file"@.len() == 4);
    assert("keyspace"@.len() == 8);
    assert("account"@.len() == 7);
    match a {
        SubjectKind::File => {
            assert(b == SubjectKind::File);
        },
        SubjectKind::Keyspace => {
            assert(b == SubjectKind::Keyspace);
        },
        SubjectKind::Account => {
            assert(b == SubjectKind::Account);
        },
    }
}

/// Two sets with the same members are equal.
proof fn lemma_set_ext(a: CapabilitySet, b: CapabilitySet)
    requires
        forall|p: Permission| has_cap(a, p) <==> has_cap(b, p),
    ensures
        a == b,
{
    assert(has_cap(a, Permission::Read) == has_cap(b, Permission::Read));
    assert(has_cap(a, Permission::Write) == has_cap(b, Permission::Write));
    assert(has_cap(a, Permission::Delegate) == has_cap(b, Permission::Delegate));
    assert(has_cap(a, Permission::Admin) == has_cap(b, Permission::Admin));
    assert(has_cap(a, Permission::SignRotation) == has_cap(b, Permission::SignRotation));
}

/// What a capability writes reads back as that capability: the fields are
/// accepted, and any capability read from them agrees with the one written on
/// every field.
pub proof fn law_capability_fields_roundtrip(c: Capability, f: FieldsView, d: Capability)
    requires
        c.format_version == Capability::FORMAT_VERSION,
        written_by(c, f),
        read_from(f, d),
    ensures
        fields_fault(f) is None,
        same_capability(c, d),
{
    crate::storage::fingerprint::lemma_fingerprint_len(c.granted_to);
    crate::storage::fingerprint::lemma_fingerprint_len(c.issuer);
    assert(c.subject@.len() == 32);
    assert(c.parent matches Some(p) ==> p@.len() == 32);
    assert(known_kind(f.subject_kind->0));
    lemma_kind_tag_injective(c.subject_kind, d.subject_kind);
    lemma_texts_roundtrip(c.permissions, f.permissions->0);
    lemma_set_ext(c.permissions, d.permissions);
}

/// A byte field that is known to hold 32 bytes, as an array.
fn to_array32(b: Vec<u8>) -> (r: [u8; 32])
    requires
        b@.len() == 32,
    ensures
        r@ == b@,
{
    match vec_to_array32(b) {
        Some(a) => a,
        None => {
            assert(false);
            [0u8; 32]
        },
    }
}

/// Whether an optional byte field holds 32 bytes.
fn has_32_bytes(b: &Option<Vec<u8>>) -> (r: bool)
    ensures
        r == is_32_bytes(bytes_view(*b)),
{
    match b {
        Some(v) => v.len() == 32,
        None => false,
    }
}

impl Capability {
    /// Check the fields read from an envelope and build the capability they
    /// carry. The first faulty field, in the order of [`fields_fault`], is
    /// the error.
    pub fn from_fields(f: CapabilityFields) -> (r: core::result::Result<Capability, WireError>)
        ensures
            reading_of(f@, r),
    {
        let ghost g = f@;
        match f.shape {
            SubjectShape::NotLeaf => return Err(WireError::Envelope("subject leaf")),
            SubjectShape::NotMap => return Err(WireError::Envelope("subject is not a map")),
            SubjectShape::Entries => {},
        }
        let ty = match f.type_tag {
            None => return Err(WireError::MissingField("type")),
            Some(t) => t,
        };
        if !crate::auth::cbor::str_equal(ty.as_str(), CAPABILITY_TYPE) {
            return Err(WireError::WrongType { expected: CAPABILITY_TYPE, actual: ty });
        }
        let version: u32 = match f.format_version {
            None => return Err(WireError::MissingField("format-version")),
            Some(v) => v,
        };
        if version != Self::FORMAT_VERSION {
            return Err(
                WireError::VersionMismatch { expected: Self::FORMAT_VERSION, actual: version },
            );
        }
        if f.subject.is_none() {
            return Err(WireError::MissingField("subject"));
        }
        if !has_32_bytes(&f.subject) {
            return Err(WireError::InvalidFormat("subject must be 32 bytes"));
        }
        let kind_text = match f.subject_kind {
            None => return Err(WireError::MissingField("subject-kind")),
            Some(k) => k,
        };
        let subject_kind = match SubjectKind::parse(kind_text.as_str()) {
            None => return Err(WireError::InvalidFormat("unknown subject-kind")),
            Some(k) => k,
        };
        if f.granted_to.is_none() {
            return Err(WireError::MissingField("granted-to"));
        }
        if !has_32_bytes(&f.granted_to) {
            return Err(WireError::InvalidFormat("granted-to must be 32 bytes"));
        }
        if f.issuer.is_none() {
            return Err(WireError::MissingField("issuer"));
        }
        if !has_32_bytes(&f.issuer) {
            return Err(WireError::InvalidFormat("issuer must be 32 bytes"));
        }
        let permissions = match &f.permissions {
            Some(l) => {
                proof {
                    lemma_texts_name(l@);
                }
                CapabilitySet::from_tags(l.as_slice())
            },
            None => CapabilitySet::new(),
        };
        let expires_at = match f.expires_at {
            None => None,
            Some(LeafShape::NotLeaf) => return Err(WireError::Envelope("expires-at")),
            Some(LeafShape::Other) => return Err(
                WireError::InvalidFormat("expires-at is not CBOR tag 1"),
            ),
            Some(LeafShape::Tagged { tag, unsigned }) => {
                if tag != 1 {
                    return Err(WireError::InvalidFormat("expires-at is not CBOR tag 1"));
                }
                match unsigned {
                    Some(v) => Some(v),
                    None => return Err(
                        WireError::InvalidFormat("expires-at tag 1 inner is not unsigned"),
                    ),
                }
            },
        };
        let parent = match f.parent {
            None => None,
            Some(p) => {
                if p.len() != 32 {
                    return Err(WireError::InvalidFormat("parent must be 32 bytes"));
                }
                Some(to_array32(p))
            },
        };
        let subject = match f.subject {
            Some(b) => to_array32(b),
            None => {
                assert(false);
                [0u8; 32]
            },
        };
        let granted_to = match f.granted_to {
            Some(b) => PublicKeyFingerprint::from_bytes(to_array32(b)),
            None => {
                assert(false);
                PublicKeyFingerprint::from_bytes([0u8; 32])
            },
        };
        let issuer = match f.issuer {
            Some(b) => PublicKeyFingerprint::from_bytes(to_array32(b)),
            None => {
                assert(false);
                PublicKeyFingerprint::from_bytes([0u8; 32])
            },
        };
        proof {
            assert(known_kind(kind_text@));
            assert(forall|p: Permission| #[trigger]
                has_cap(permissions, p) <==> lists_permission(g.permissions, p));
        }
        Ok(
            Capability {
                format_version: version,
                subject,
                subject_kind,
                granted_to,
                issuer,
                permissions,
                expires_at,
                note: f.note,
                parent,
            },
        )
    }

    /// The fields this capability writes into its envelope.
    pub fn to_fields(&self) -> (f: CapabilityFields)
        ensures
            written_by(*self, f@),
    {
        let expires_at = match self.expires_at {
            Some(t) => Some(LeafShape::Tagged { tag: 1, unsigned: Some(t) }),
            None => None,
        };
        let note = match &self.note {
            Some(n) => Some(n.as_str().to_owned()),
            None => None,
        };
        let parent = match &self.parent {
            Some(p) => Some(to_vec(p.as_slice())),
            None => None,
        };
        let tags = self.permissions.tags();
        proof {
            lemma_texts_of(tags@, cap_list(self.permissions));
        }
        CapabilityFields {
            shape: SubjectShape::Entries,
            type_tag: Some(CAPABILITY_TYPE.to_owned()),
            format_version: Some(self.format_version),
            subject: Some(to_vec(self.subject.as_slice())),
            subject_kind: Some(self.subject_kind.as_str().to_owned()),
            granted_to: Some(to_vec(self.granted_to.as_bytes().as_slice())),
            issuer: Some(to_vec(self.issuer.as_bytes().as_slice())),
            permissions: Some(tags),
            expires_at,
            note,
            parent,
        }
    }
}

/// An empty reading, for a subject that carries no map.
fn no_fields(shape: SubjectShape) -> (f: CapabilityFields)
    ensures
        f@ == empty_fields(shape),
{
    CapabilityFields {
        shape,
        type_tag: None,
        format_version: None,
        subject: None,
        subject_kind: None,
        granted_to: None,
        issuer: None,
        permissions: None,
        expires_at: None,
        note: None,
        parent: None,
    }
}

/// Read the capability fields of the envelope that the bytes encode.
fn fields_of_envelope(cbor: &[u8], shape: SubjectShape) -> (f: CapabilityFields)
    requires
        envelope_nesting_ok(cbor@),
        envelope_subject_shape_of(cbor@) == Some(shape),
    ensures
        envelope_fields_of(cbor@) == Some(f@),
{
    match shape {
        SubjectShape::NotLeaf => return no_fields(SubjectShape::NotLeaf),
        SubjectShape::NotMap => return no_fields(SubjectShape::NotMap),
        SubjectShape::Entries => {},
    }
    CapabilityFields {
        shape: SubjectShape::Entries,
        type_tag: envelope_map_text(cbor, "type"),
        format_version: envelope_map_u32(cbor, "format-version"),
        subject: envelope_map_bytes(cbor, "subject"),
        subject_kind: envelope_map_text(cbor, "subject-kind"),
        granted_to: envelope_map_bytes(cbor, "granted-to"),
        issuer: envelope_map_bytes(cbor, "issuer"),
        permissions: envelope_text_list(cbor, "permissions"),
        expires_at: envelope_object_leaf(cbor, "expires-at"),
        note: envelope_optional_text(cbor, "note"),
        parent: envelope_optional_bytes(cbor, "parent"),
    }
}

/// What a capability writes into its envelope is what [`written_by`] asks,
/// when its note is stored as it is.
proof fn lemma_written_fields(c: Capability)
    requires
        c.note matches Some(n) ==> stored_text(n@) == n@,
    ensures
        written_by(c, envelope_fields_written(c)),
{
    let f = envelope_fields_written(c);
    let caps = cap_list(c.permissions);
    assert(texts_of(tag_texts(caps), caps));
    assert(f.note == text_view(c.note));
}

/// What `to_envelope` writes, `from_envelope` reads back: the envelope's
/// fields are accepted, and the capability read from them agrees with the one
/// written on every field, for a capability of the current format whose note,
/// if any, is stored unchanged (ASCII text is).
pub proof fn law_envelope_roundtrip(c: Capability, d: Capability)
    requires
        c.format_version == Capability::FORMAT_VERSION,
        c.note matches Some(n) ==> stored_text(n@) == n@,
        read_from(envelope_fields_written(c), d),
    ensures
        fields_fault(envelope_fields_written(c)) is None,
        same_capability(c, d),
{
    lemma_written_fields(c);
    law_capability_fields_roundtrip(c, envelope_fields_written(c), d);
}

/// What `sign` writes, `verify` reads back: verifying an envelope whose
/// wrapped envelope holds what a capability writes, under keys that accept
/// its signature parts, gives that capability back (for a capability of the
/// current format whose note, if any, is stored unchanged).
pub proof fn law_signed_roundtrip(
    c: Capability,
    out: Seq<u8>,
    keys: VerifyingKeys,
    policy: VerifyPolicy,
    r: AuthResult<Capability>,
)
    requires
        c.format_version == Capability::FORMAT_VERSION,
        c.note matches Some(n) ==> stored_text(n@) == n@,
        envelope_nesting_ok(out),
        envelope_unwrapped_of(out) matches Some(u) && envelope_nesting_ok(u) && envelope_fields_of(u)
            == Some(envelope_fields_written(c)),
        envelope_subject_digest_of(out) matches Some(d) && envelope_bytes_object_of(
            out,
            "ed25519-signature"@,
        ) matches Some(sig) && sig.len() == 64 && accepted_parts(
            d,
            sig,
            envelope_optional_bytes_of(out, "mldsa-signature"@),
            keys,
            policy,
        ),
        verify_outcome(out, keys, policy, r),
    ensures
        r matches Ok(v) && same_capability(c, v),
{
    lemma_written_fields(c);
    let f = envelope_fields_written(c);
    assert(fields_fault(f) is None) by {
        crate::storage::fingerprint::lemma_fingerprint_len(c.granted_to);
        crate::storage::fingerprint::lemma_fingerprint_len(c.issuer);
        assert(known_kind(f.subject_kind->0));
    }
    let v = r->Ok_0;
    law_capability_fields_roundtrip(c, f, v);
}

/// A capability signed with an Ed25519-only key verifies, under that key's
/// (valid) public key and the policy that accepts Ed25519 alone, as the capability
/// that was signed (one of the current format whose note, if any, is stored
/// unchanged).
pub proof fn law_sign_then_verify(
    c: Capability,
    signing: SigningKeys,
    out: Seq<u8>,
    keys: VerifyingKeys,
    r: AuthResult<Capability>,
)
    requires
        c.format_version == Capability::FORMAT_VERSION,
        c.note matches Some(n) ==> stored_text(n@) == n@,
        signing.ml_dsa is None,
        signed_with(out, signing),
        envelope_nesting_ok(out),
        envelope_unwrapped_of(out) matches Some(u) && envelope_nesting_ok(u) && envelope_fields_of(u)
            == Some(envelope_fields_written(c)),
        keys.ed25519@ == ed25519_public_of(signing.ed25519@),
        ed25519_key_ok(keys.ed25519@),
        verify_outcome(out, keys, VerifyPolicy::PqOptional, r),
    ensures
        r matches Ok(v) && same_capability(c, v),
{
    law_signed_roundtrip(c, out, keys, VerifyPolicy::PqOptional, r);
}

/// The tags of the capabilities, in order.
pub open spec fn tag_texts(caps: Seq<Permission>) -> Seq<Seq<char>> {
    caps.map_values(|c: Permission| cap_tag(c))
}

/// What a reader finds in the envelope that a capability writes: its map
/// entries, its permission tags in capability order, its expiry under tag 1,
/// its note as stored, and its parent.
pub open spec fn envelope_fields_written(c: Capability) -> FieldsView {
    FieldsView {
        shape: SubjectShape::Entries,
        type_tag: Some(CAPABILITY_TYPE@),
        format_version: Some(c.format_version),
        subject: Some(c.subject@),
        subject_kind: Some(subject_kind_tag(c.subject_kind)),
        granted_to: Some(c.granted_to@),
        issuer: Some(c.issuer@),
        permissions: Some(tag_texts(cap_list(c.permissions))),
        expires_at: match c.expires_at {
            Some(t) => Some(LeafShape::Tagged { tag: 1, unsigned: Some(t) }),
            None => None,
        },
        note: match c.note {
            Some(n) => Some(stored_text(n@)),
            None => None,
        },
        parent: digest_view(c.parent),
    }
}

/// Tags written as texts read back as the tags.
proof fn lemma_tags_stored(l: Seq<String>, caps: Seq<Permission>)
    requires
        tags_of(l, caps),
    ensures
        stored_texts(texts(l)) == tag_texts(caps),
{
    lemma_fixed_texts_ascii();
    assert(stored_texts(texts(l)) =~= tag_texts(caps)) by {
        assert forall|i: int| 0 <= i < caps.len() implies #[trigger] stored_texts(texts(l))[i]
            == tag_texts(caps)[i] by {
            assert(texts(l)[i] == l[i]@);
            assert(l[i]@ == cap_tag(caps[i]));
            assert(is_ascii_chars(cap_tag(caps[i])));
        }
    }
}

/// The keys and predicates of a capability envelope are distinct texts.
proof fn lemma_names_distinct()
    ensures
        "type"@.len() == 4,
        "format-version"@.len() == 14,
        "subject"@.len() == 7,
        "subject-kind"@.len() == 12,
        "granted-to"@.len() == 10,
        "issuer"@.len() == 6,
        "permissions"@.len() == 11,
        "expires-at"@.len() == 10,
        "note"@.len() == 4,
        "parent"@.len() == 6,
{
    reveal_strlit("type");
    reveal_strlit("format-version");
    reveal_strlit("subject");
    reveal_strlit("subject-kind");
    reveal_strlit("granted-to");
    reveal_strlit("issuer");
    reveal_strlit("permissions");
    reveal_strlit("expires-at");
    reveal_strlit("note");
    reveal_strlit("parent");
}

/// The fixed texts a capability envelope holds are ASCII.
proof fn lemma_fixed_texts_ascii()
    ensures
        is_ascii_chars("type"@),
        is_ascii_chars("format-version"@),
        is_ascii_chars("subject"@),
        is_ascii_chars("subject-kind"@),
        is_ascii_chars("granted-to"@),
        is_ascii_chars("issuer"@),
        is_ascii_chars(CAPABILITY_TYPE@),
        is_ascii_chars("permissions"@),
        is_ascii_chars("expires-at"@),
        is_ascii_chars("note"@),
        is_ascii_chars("parent"@),
        is_ascii_chars("ed25519-signature"@),
        is_ascii_chars("mldsa-signature"@),
        forall|k: SubjectKind| is_ascii_chars(#[trigger] subject_kind_tag(k)),
        forall|c: Permission| is_ascii_chars(#[trigger] cap_tag(c)),
{
    reveal_strlit("type");
    reveal_strlit("format-version");
    reveal_strlit("subject");
    reveal_strlit("subject-kind");
    reveal_strlit("granted-to");
    reveal_strlit("issuer");
    reveal_strlit("recrypt.capability");
    reveal_strlit("permissions");
    reveal_strlit("expires-at");
    reveal_strlit("note");
    reveal_strlit("parent");
    reveal_strlit("ed25519-signature");
    reveal_strlit("mldsa-signature");
    reveal_strlit("file");
    reveal_strlit("keyspace");
    reveal_strlit("account");
    reveal_strlit("read");
    reveal_strlit("write");
    reveal_strlit("delegate");
    reveal_strlit("admin");
    reveal_strlit("sign_rotation");
}

/// The signature parts are accepted over the message under the keys and the
/// policy: the Ed25519 part verifies, and the ML-DSA-87 part, when present,
/// verifies too; without one, the policy must not require it.
pub open spec fn accepted_parts(
    msg: Seq<u8>,
    ed25519_sig: Seq<u8>,
    ml_dsa_sig: Option<Seq<u8>>,
    keys: VerifyingKeys,
    policy: VerifyPolicy,
) -> bool {
    &&& ed25519_key_ok(keys.ed25519@)
    &&& ed25519_verifies(keys.ed25519@, msg, ed25519_sig)
    &&& match ml_dsa_sig {
        None => policy == VerifyPolicy::PqOptional,
        Some(p) => keys.ml_dsa matches Some(pk) && ml_dsa_part_ok(pk@, msg, p),
    }
}

/// What verification decides from what a signed envelope holds: the
/// decoded inner capability, the signature objects and the digest they
/// sign.
pub open spec fn signed_outcome(
    decoded: core::result::Result<Capability, WireError>,
    ed25519_sig: Option<Seq<u8>>,
    ml_dsa_sig: Option<Seq<u8>>,
    payload: Seq<u8>,
    keys: VerifyingKeys,
    policy: VerifyPolicy,
    r: AuthResult<Capability>,
) -> bool {
    match decoded {
        Err(_) => r matches Err(AuthError::InvalidEncoding(_)),
        Ok(c) => if !(ed25519_sig matches Some(e) && e.len() == 64) {
            r matches Err(AuthError::InvalidSignature)
        } else if accepted_parts(payload, ed25519_sig->0, ml_dsa_sig, keys, policy) {
            r == Ok::<Capability, AuthError>(c)
        } else {
            r matches Err(AuthError::InvalidSignature)
        },
    }
}

/// Decide verification from what a signed envelope holds.
pub fn accept_signed(
    decoded: core::result::Result<Capability, WireError>,
    ed25519_sig: Option<Vec<u8>>,
    ml_dsa_sig: Option<Vec<u8>>,
    payload: &[u8],
    keys: &VerifyingKeys,
    policy: VerifyPolicy,
) -> (r: AuthResult<Capability>)
    ensures
        signed_outcome(
            decoded,
            bytes_view(ed25519_sig),
            bytes_view(ml_dsa_sig),
            payload@,
            *keys,
            policy,
            r,
        ),
{
    let ghost ml_view = bytes_view(ml_dsa_sig);
    let cap = match decoded {
        Ok(c) => c,
        Err(_) => return Err(AuthError::InvalidEncoding("decode".to_owned())),
    };
    let ed = match ed25519_sig {
        Some(b) => b,
        None => return Err(AuthError::InvalidSignature),
    };
    let ghost ed_bytes = ed@;
    let arr = match vec_to_array64(ed) {
        Some(a) => a,
        None => return Err(AuthError::InvalidSignature),
    };
    let sig = MultiSig { ed25519_sig: arr, ml_dsa_sig };
    proof {
        assert(arr@ == ed_bytes);
        assert(signature_accepted(payload@, sig, *keys, policy) == accepted_parts(
            payload@,
            ed_bytes,
            ml_view,
            *keys,
            policy,
        ));
    }
    match verify_message(payload, &sig, keys, policy) {
        Ok(_) => Ok(cap),
        Err(_) => Err(AuthError::InvalidSignature),
    }
}

/// A signed capability envelope as the signer's keys make it: a wrapped
/// envelope whose `ed25519-signature` object is the Ed25519 signature of the
/// digest of its subject, with an `mldsa-signature` object exactly when the
/// keys hold a post-quantum key.
pub open spec fn signed_with(out: Seq<u8>, keys: SigningKeys) -> bool {
    &&& envelope_unwrapped_of(out) is Some
    &&& envelope_subject_digest_of(out) matches Some(d) && envelope_bytes_object_of(
        out,
        "ed25519-signature"@,
    ) == Some(ed25519_signature_of(keys.ed25519@, d)) && ed25519_signature_of(
        keys.ed25519@,
        d,
    ).len() == 64 && ed25519_verifies(
        ed25519_public_of(keys.ed25519@),
        d,
        ed25519_signature_of(keys.ed25519@, d),
    )
    &&& (envelope_optional_bytes_of(out, "mldsa-signature"@) is Some <==> keys.ml_dsa is Some)
}

/// What verifying the signed envelope `b` gives: a failure to unwrap it is
/// `InvalidSignature`; an inner envelope that is no capability is
/// `InvalidEncoding`; then a missing or malformed Ed25519 object, or
/// signature parts that the keys do not accept over the digest of the
/// wrapped subject, are `InvalidSignature`; otherwise the capability read
/// from the inner envelope.
pub open spec fn verify_outcome(
    b: Seq<u8>,
    keys: VerifyingKeys,
    policy: VerifyPolicy,
    r: AuthResult<Capability>,
) -> bool {
    if !envelope_nesting_ok(b) {
        r matches Err(AuthError::InvalidSignature)
    } else {
        match envelope_unwrapped_of(b) {
            None => r matches Err(AuthError::InvalidSignature),
            Some(inner) => match envelope_subject_digest_of(b) {
                None => r matches Err(AuthError::InvalidSignature),
                Some(payload) => verified_inner(b, inner, payload, keys, policy, r),
            },
        }
    }
}

/// What verification decides once the wrapped envelope `inner` and the
/// signed digest `payload` of the envelope `b` are known.
pub open spec fn verified_inner(
    b: Seq<u8>,
    inner: Seq<u8>,
    payload: Seq<u8>,
    keys: VerifyingKeys,
    policy: VerifyPolicy,
    r: AuthResult<Capability>,
) -> bool {
    if !envelope_nesting_ok(inner) {
        r matches Err(AuthError::InvalidEncoding(_))
    } else {
        match envelope_fields_of(inner) {
            None => r matches Err(AuthError::InvalidEncoding(_)),
            Some(f) => {
                let ed = envelope_bytes_object_of(b, "ed25519-signature"@);
                let ml = envelope_optional_bytes_of(b, "mldsa-signature"@);
                if fields_fault(f) is Some {
                    r matches Err(AuthError::InvalidEncoding(_))
                } else if !(ed matches Some(e) && e.len() == 64) {
                    r matches Err(AuthError::InvalidSignature)
                } else if accepted_parts(payload, ed->0, ml, keys, policy) {
                    r matches Ok(c) && read_from(f, c)
                } else {
                    r matches Err(AuthError::InvalidSignature)
                }
            },
        }
    }
}

/// The access decision for the capability at time `now`: expired
/// capabilities are refused first, then those without the permission.
pub open spec fn authorization(
    cap: Capability,
    now: u64,
    required_perm: Permission,
    r: AuthResult<Capability>,
) -> bool {
    if cap.expires_at matches Some(t) && now > t {
        r matches Err(AuthError::CapabilityExpired)
    } else if !has_cap(cap.permissions, required_perm) {
        r matches Err(AuthError::OperationNotPermitted(_))
    } else {
        r == Ok::<Capability, AuthError>(cap)
    }
}

/// Full verification: the outcome of verifying the envelope, then, for a
/// verified capability, the access decision at time `now`.
pub open spec fn full_outcome(
    b: Seq<u8>,
    keys: VerifyingKeys,
    policy: VerifyPolicy,
    required_perm: Permission,
    verified: AuthResult<Capability>,
    now: u64,
    r: AuthResult<Capability>,
) -> bool {
    &&& verify_outcome(b, keys, policy, verified)
    &&& match verified {
        Ok(c) => authorization(c, now, required_perm, r),
        Err(e) => r == Err::<Capability, AuthError>(e),
    }
}

impl Capability {
    /// The unsigned inner envelope of the capability, as CBOR bytes: the map
    /// subject, then the salted `permissions`, `expires-at` and `note`
    /// assertions and the unsalted `parent` one.
    fn to_envelope_inner(&self) -> (r: Vec<u8>)
        ensures
            envelope_fields_of(r@) == Some(envelope_fields_written(*self)),
            nesting_ok(r@, 36),
    {
        proof {
            lemma_fixed_texts_ascii();
        }
        let mut m = new_map();
        map_insert_text(&mut m, "type", CAPABILITY_TYPE);
        map_insert_u32(&mut m, "format-version", self.format_version);
        map_insert_bytes(&mut m, "subject", self.subject.as_slice());
        map_insert_text(&mut m, "subject-kind", self.subject_kind.as_str());
        map_insert_bytes(&mut m, "granted-to", self.granted_to.as_bytes().as_slice());
        map_insert_bytes(&mut m, "issuer", self.issuer.as_bytes().as_slice());
        let ghost e = cbor_map_entries(m);
        proof {
            lemma_names_distinct();
            assert(e.dom().contains("type"@) && e["type"@] == MapEntry::Text(CAPABILITY_TYPE@));
            assert(e.dom().contains("format-version"@) && e["format-version"@]
                == MapEntry::Unsigned(self.format_version as u64));
            assert(e.dom().contains("subject"@) && e["subject"@] == MapEntry::Bytes(self.subject@));
            assert(e.dom().contains("subject-kind"@) && e["subject-kind"@] == MapEntry::Text(
                subject_kind_tag(self.subject_kind),
            ));
            assert(e.dom().contains("granted-to"@) && e["granted-to"@] == MapEntry::Bytes(
                self.granted_to@,
            ));
            assert(e.dom().contains("issuer"@) && e["issuer"@] == MapEntry::Bytes(self.issuer@));
            assert forall|k: Seq<char>| e.dom().contains(k) implies is_ascii_chars(k) by {}
            assert forall|k: Seq<char>| e.dom().contains(k) implies !(e[k] is Other) by {}
        }
        let base = envelope_of_map_cbor(m);
        proof {
            lemma_nesting_mono(base@, 0, Seq::empty(), 4, MAX_ENVELOPE_NESTING as nat);
        }
        proof {
            assert(envelope_map_text_of(base@, "type"@) == Some(CAPABILITY_TYPE@));
            assert(envelope_map_u32_of(base@, "format-version"@) == Some(self.format_version));
            assert(envelope_map_bytes_of(base@, "subject"@) == Some(self.subject@));
            assert(envelope_map_text_of(base@, "subject-kind"@) == Some(
                subject_kind_tag(self.subject_kind),
            ));
            assert(envelope_map_bytes_of(base@, "granted-to"@) == Some(self.granted_to@));
            assert(envelope_map_bytes_of(base@, "issuer"@) == Some(self.issuer@));
        }
        let tags = self.permissions.tags();
        proof {
            lemma_tags_stored(tags@, cap_list(self.permissions));
        }
        let mut env = envelope_add_text_list_cbor(base.as_slice(), "permissions", tags);
        let ghost mut depth: nat = 12;
        proof {
            assert(nesting_ok(env@, 4 + 8));
            lemma_nesting_mono(env@, 0, Seq::empty(), depth, MAX_ENVELOPE_NESTING as nat);
        }
        if let Some(t) = self.expires_at {
            let next = envelope_add_tagged_cbor(env.as_slice(), "expires-at", 1, t);
            proof {
                assert(nesting_ok(next@, depth + 8));
                depth = depth + 8;
                lemma_nesting_mono(next@, 0, Seq::empty(), depth, MAX_ENVELOPE_NESTING as nat);
            }
            env = next;
        }
        if let Some(n) = &self.note {
            let next = envelope_add_text_cbor(env.as_slice(), "note", n.as_str());
            proof {
                assert(nesting_ok(next@, depth + 8));
                depth = depth + 8;
                lemma_nesting_mono(next@, 0, Seq::empty(), depth, MAX_ENVELOPE_NESTING as nat);
            }
            env = next;
        }
        if let Some(p) = &self.parent {
            let next = envelope_add_bytes_cbor(env.as_slice(), "parent", p.as_slice());
            proof {
                assert(nesting_ok(next@, depth + 8));
                depth = depth + 8;
            }
            env = next;
        }
        proof {
            lemma_nesting_mono(env@, 0, Seq::empty(), depth, 36);
            assert(envelope_fields_of(env@) =~= Some(envelope_fields_written(*self)));
        }
        env
    }

    /// Read and check the capability of the envelope that the bytes encode,
    /// whose subject has the given shape.
    fn from_envelope_inner(cbor: &[u8], shape: SubjectShape) -> (r: core::result::Result<
        Capability,
        WireError,
    >)
        requires
            envelope_nesting_ok(cbor@),
            envelope_subject_shape_of(cbor@) == Some(shape),
        ensures
            reading_of(envelope_fields_of(cbor@)->0, r),
    {
        let f = fields_of_envelope(cbor, shape);
        Self::from_fields(f)
    }

    /// The unsigned envelope of the capability, as CBOR bytes.
    pub fn to_envelope(&self) -> (r: core::result::Result<Vec<u8>, WireError>)
        ensures
            r matches Ok(b) && envelope_fields_of(b@) == Some(envelope_fields_written(*self))
                && envelope_nesting_ok(b@),
    {
        let b = self.to_envelope_inner();
        proof {
            lemma_nesting_mono(b@, 0, Seq::empty(), 36, MAX_ENVELOPE_NESTING as nat);
        }
        Ok(b)
    }

    /// Parse an unsigned capability envelope: bytes nested too deeply to be
    /// decoded safely, and bytes that are no envelope, are an `Envelope`
    /// error; anything else is the reader's verdict on the fields the
    /// envelope holds.
    pub fn from_envelope(bytes: &[u8]) -> (r: core::result::Result<Capability, WireError>)
        ensures
            !envelope_nesting_ok(bytes@) ==> (r matches Err(WireError::Envelope(s)) && s@
                == "nesting too deep"@),
            envelope_nesting_ok(bytes@) ==> match envelope_fields_of(bytes@) {
                None => r matches Err(WireError::Envelope(s)) && s@ == "parse envelope"@,
                Some(f) => reading_of(f, r),
            },
    {
        if !cbor_nesting_within(bytes, MAX_ENVELOPE_NESTING) {
            return Err(WireError::Envelope("nesting too deep"));
        }
        match envelope_subject_shape(bytes) {
            Some(shape) => Self::from_envelope_inner(bytes, shape),
            None => Err(WireError::Envelope("parse envelope")),
        }
    }

    /// Sign the capability and emit the signed envelope as CBOR bytes: the
    /// inner envelope is wrapped and the digest of the wrapper's subject is
    /// signed; the Ed25519 signature and, with a post-quantum key, the
    /// ML-DSA-87 signature are added as assertions. Fails only when the
    /// post-quantum signing fails.
    pub fn sign(&self, signing_keys: &SigningKeys) -> (r: AuthResult<Vec<u8>>)
        ensures
            r matches Err(e) ==> signing_keys.ml_dsa is Some && e is Signature,
            signing_keys.ml_dsa is None ==> r is Ok,
            r matches Ok(out) ==> signed_with(out@, *signing_keys),
            r matches Ok(out) ==> envelope_nesting_ok(out@),
            r matches Ok(out) ==> (envelope_unwrapped_of(out@) matches Some(u) && envelope_nesting_ok(
                u,
            ) && envelope_fields_of(u) == Some(envelope_fields_written(*self))),
    {
        let inner = self.to_envelope_inner();
        proof {
            lemma_nesting_mono(inner@, 0, Seq::empty(), 36, MAX_ENVELOPE_NESTING as nat);
            lemma_fixed_texts_ascii();
        }
        let wrapped = envelope_wrap_cbor(inner.as_slice());
        proof {
            let u = envelope_unwrapped_of(wrapped@)->0;
            assert(envelope_fields_of(u) == envelope_fields_of(inner@));
            assert(nesting_ok(wrapped@, 36 + 8));
            assert(nesting_ok(u, 36));
            lemma_nesting_mono(u, 0, Seq::empty(), 36, MAX_ENVELOPE_NESTING as nat);
            lemma_nesting_mono(wrapped@, 0, Seq::empty(), 44, MAX_ENVELOPE_NESTING as nat);
        }
        let payload = match cbor_subject_digest(wrapped.as_slice()) {
            Some(d) => d,
            None => {
                assert(false);
                return Err(AuthError::InvalidSignature);
            },
        };
        let sig = match sign_message(payload.as_slice(), signing_keys) {
            Ok(s) => s,
            Err(e) => return Err(AuthError::Signature(e)),
        };
        let signed = envelope_add_bytes_cbor(
            wrapped.as_slice(),
            "ed25519-signature",
            sig.ed25519_sig.as_slice(),
        );
        proof {
            reveal_strlit("ed25519-signature");
            reveal_strlit("mldsa-signature");
            assert("mldsa-signature"@.len() == 15);
            assert("ed25519-signature"@.len() == 17);
            assert("mldsa-signature"@ != "ed25519-signature"@);
            assert(envelope_optional_bytes_of(wrapped@, "mldsa-signature"@) is None);
            assert(nesting_ok(signed@, 44 + 8));
            lemma_nesting_mono(signed@, 0, Seq::empty(), 52, MAX_ENVELOPE_NESTING as nat);
        }
        match &sig.ml_dsa_sig {
            Some(ml) => {
                let out = envelope_add_bytes_cbor(signed.as_slice(), "mldsa-signature", ml.as_slice());
                proof {
                    assert(nesting_ok(out@, 52 + 8));
                    lemma_nesting_mono(out@, 0, Seq::empty(), 60, MAX_ENVELOPE_NESTING as nat);
                }
                Ok(out)
            },
            None => Ok(signed),
        }
    }

    /// Parse a signed capability envelope and verify its signature against
    /// the issuer's keys under the policy. Bytes nested too deeply to be
    /// decoded safely, malformed envelopes and signature failures are
    /// `InvalidSignature`; an inner envelope that is no
    /// capability is `InvalidEncoding`. Expiry and permissions are not
    /// checked here (see [`Capability::verify_full`]).
    pub fn verify(envelope_bytes: &[u8], issuer_keys: &VerifyingKeys, policy: VerifyPolicy) -> (r:
        AuthResult<Capability>)
        ensures
            verify_outcome(envelope_bytes@, *issuer_keys, policy, r),
    {
        if !cbor_nesting_within(envelope_bytes, MAX_ENVELOPE_NESTING) {
            return Err(AuthError::InvalidSignature);
        }
        let inner = match envelope_unwrapped(envelope_bytes) {
            Some(e) => e,
            None => return Err(AuthError::InvalidSignature),
        };
        let payload = match cbor_subject_digest(envelope_bytes) {
            Some(d) => d,
            None => return Err(AuthError::InvalidSignature),
        };
        let decoded = Self::from_envelope(inner.as_slice());
        let ed = envelope_bytes_object(envelope_bytes, "ed25519-signature");
        let ml = envelope_optional_bytes(envelope_bytes, "mldsa-signature");
        accept_signed(decoded, ed, ml, payload.as_slice(), issuer_keys, policy)
    }

    /// The issuer of a signed capability envelope, read without verifying
    /// the signature: bytes nested too deeply, or a failure to unwrap the
    /// envelope, are `InvalidSignature`; an inner envelope that is no
    /// capability is `InvalidEncoding`.
    pub fn peek_issuer(envelope_bytes: &[u8]) -> (r: AuthResult<PublicKeyFingerprint>)
        ensures
            !envelope_nesting_ok(envelope_bytes@) ==> r matches Err(AuthError::InvalidSignature),
            envelope_nesting_ok(envelope_bytes@) ==> match envelope_unwrapped_of(envelope_bytes@) {
                None => r matches Err(AuthError::InvalidSignature),
                Some(inner) => if !envelope_nesting_ok(inner) {
                    r matches Err(AuthError::InvalidEncoding(_))
                } else {
                    match envelope_fields_of(inner) {
                        Some(f) => if fields_fault(f) is None {
                            r matches Ok(fp) && fp@ == f.issuer->0
                        } else {
                            r matches Err(AuthError::InvalidEncoding(_))
                        },
                        None => r matches Err(AuthError::InvalidEncoding(_)),
                    }
                },
            },
    {
        if !cbor_nesting_within(envelope_bytes, MAX_ENVELOPE_NESTING) {
            return Err(AuthError::InvalidSignature);
        }
        let inner = match envelope_unwrapped(envelope_bytes) {
            Some(e) => e,
            None => return Err(AuthError::InvalidSignature),
        };
        match Self::from_envelope(inner.as_slice()) {
            Ok(c) => Ok(c.issuer),
            Err(_) => Err(AuthError::InvalidEncoding("decode".to_owned())),
        }
    }

    /// The digest of a signed capability envelope's wrapped subject: what a
    /// delegated capability stores as its parent. Bytes nested too deeply to
    /// be decoded safely, or that are no envelope, are `InvalidSignature`.
    pub fn wrapped_subject_digest(envelope_bytes: &[u8]) -> (r: AuthResult<[u8; 32]>)
        ensures
            match r {
                Ok(d) => envelope_nesting_ok(envelope_bytes@) && envelope_subject_digest_of(
                    envelope_bytes@,
                ) == Some(d@),
                Err(e) => (!envelope_nesting_ok(envelope_bytes@) || envelope_subject_digest_of(
                    envelope_bytes@,
                ) is None) && e is InvalidSignature,
            },
    {
        if !cbor_nesting_within(envelope_bytes, MAX_ENVELOPE_NESTING) {
            return Err(AuthError::InvalidSignature);
        }
        match cbor_subject_digest(envelope_bytes) {
            Some(d) => Ok(d),
            None => Err(AuthError::InvalidSignature),
        }
    }

    /// The access decision for a verified capability at time `now`: expired
    /// capabilities are refused first, then those without the permission.
    pub fn authorize_at(self, now: u64, required_perm: Permission) -> (r: AuthResult<Capability>)
        ensures
            authorization(self, now, required_perm, r),
    {
        if self.is_expired_at(now) {
            return Err(AuthError::CapabilityExpired);
        }
        if !self.permits(required_perm) {
            return Err(AuthError::OperationNotPermitted(required_perm.as_str().to_owned()));
        }
        Ok(self)
    }

    /// Verify the signature, then that the capability has not expired at the
    /// clock's current reading and grants the permission.
    pub fn verify_full(
        envelope_bytes: &[u8],
        issuer_keys: &VerifyingKeys,
        policy: VerifyPolicy,
        required_perm: Permission,
    ) -> (r: AuthResult<Capability>)
        ensures
            exists|verified: AuthResult<Capability>, now: u64|
                #[trigger] full_outcome(
                    envelope_bytes@,
                    *issuer_keys,
                    policy,
                    required_perm,
                    verified,
                    now,
                    r,
                ),
    {
        let verified = Self::verify(envelope_bytes, issuer_keys, policy);
        let ghost v = verified;
        let cap = match verified {
            Ok(c) => c,
            Err(e) => {
                assert(full_outcome(envelope_bytes@, *issuer_keys, policy, required_perm, v, 0, Err(e)));
                return Err(e);
            },
        };
        let now: u64 = unix_now();
        let r = cap.authorize_at(now, required_perm);
        assert(full_outcome(envelope_bytes@, *issuer_keys, policy, required_perm, v, now, r));
        r
    }
}

} // verus!
