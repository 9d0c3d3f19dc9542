//! Keyspaces: named, versioned groups of members sharing access to encrypted
//! content. Each version is a [`KeyspaceDoc`] whose hash links it to the
//! next, forming a content-addressed chain.

use vstd::prelude::*;
use vstd::utf8::encode_utf8;

use crate::foreign::base58::{base58_bytes, base58_decode, base58_encode, base58_text};
use crate::foreign::hash::{blake3_digest, blake3_hash};
use crate::foreign::random::random_array32;
use crate::foreign::text::vec_to_array32;
use crate::seqs::{append_bytes, le_bytes, push_le};
use crate::storage::error::AuthError;
use crate::storage::fingerprint::PublicKeyFingerprint;

verus! {

broadcast use vstd::std_specs::vec::group_vec_axioms;

/// Decode Base58 text of exactly 32 bytes.
fn decode_base58_32(s: &str) -> (r: Option<[u8; 32]>)
    ensures
        match r {
            Some(a) => base58_bytes(s@) == Some(a@),
            None => !(base58_bytes(s@) matches Some(b) && b.len() == 32),
        },
{
    let bytes = base58_decode(s)?;
    vec_to_array32(bytes)
}

// ---------------------------------------------------------------------------
// KeyspaceId
// ---------------------------------------------------------------------------

/// Unique random identifier of a keyspace (256 bits, shown as Base58).
#[derive(Clone, Copy, Debug, PartialEq, Eq, Hash)]
pub struct KeyspaceId(pub(crate) [u8; 32]);

impl View for KeyspaceId {
    type V = Seq<u8>;

    closed spec fn view(&self) -> Seq<u8> {
        self.0@
    }
}

/// A keyspace id has 32 bytes.
pub proof fn lemma_keyspace_id_len(a: KeyspaceId)
    ensures
        a@.len() == 32,
{
}

/// Values with the same bytes are equal.
pub proof fn lemma_keyspace_id_ext(a: KeyspaceId, b: KeyspaceId)
    requires
        a@ == b@,
    ensures
        a == b,
{
    broadcast use vstd::array::group_array_axioms;

    assert forall|i: int| 0 <= i < 32 implies a.0[i] == b.0[i] by {
        assert(a.0@[i] == b.0@[i]);
    }
    assert(a.0 =~= b.0);
}

impl KeyspaceId {
    /// A random keyspace id.
    pub fn random() -> (r: Self) {
        Self(random_array32())
    }

    pub fn from_bytes(bytes: [u8; 32]) -> (r: Self)
        ensures
            r@ == bytes@,
    {
        Self(bytes)
    }

    pub fn as_bytes(&self) -> (r: &[u8; 32])
        ensures
            r@ == self@,
    {
        &self.0
    }

    /// The Base58 text of the id; parsing it gives the id back.
    pub fn to_string(&self) -> (r: String)
        ensures
            r@ == base58_text(self@),
            base58_bytes(r@) == Some(self@),
    {
        base58_encode(self.0.as_slice())
    }

    /// Parse the Base58 text of an id.
    pub fn from_base58(s: &str) -> (r: Result<Self, AuthError>)
        ensures
            match r {
                Ok(id) => base58_bytes(s@) == Some(id@),
                Err(e) => e is InvalidEncoding && !(base58_bytes(s@) matches Some(b) && b.len()
                    == 32),
            },
    {
        match decode_base58_32(s) {
            Some(a) => Ok(Self(a)),
            None => Err(AuthError::InvalidEncoding("KeyspaceId: expected Base58 of 32 bytes".to_owned())),
        }
    }
}

impl core::str::FromStr for KeyspaceId {
    type Err = AuthError;

    fn from_str(s: &str) -> (r: Result<Self, AuthError>)
        ensures
            match r {
                Ok(id) => base58_bytes(s@) == Some(id@),
                Err(e) => e is InvalidEncoding && !(base58_bytes(s@) matches Some(b) && b.len()
                    == 32),
            },
    {
        Self::from_base58(s)
    }
}

/// The framed tag of one capability.
pub open spec fn cap_item(c: MemberCapability) -> Seq<u8> {
    le_bytes(encode_utf8(cap_tag(c)).len(), 2) + encode_utf8(cap_tag(c))
}

/// The encoding of a list of capabilities, item by item from the front.
pub(crate) proof fn lemma_caps_items_front(l: Seq<MemberCapability>)
    requires
        l.len() > 0,
    ensures
        caps_items(l) == cap_item(l[0]) + caps_items(l.drop_first()),
    decreases l.len(),
{
    if l.len() > 1 {
        lemma_caps_items_front(l.drop_last());
        assert(l.drop_last().drop_first() =~= l.drop_first().drop_last());
        assert(l.drop_first().last() == l.last());
        assert(caps_items(l) =~= cap_item(l[0]) + caps_items(l.drop_first()));
    } else {
        assert(l.drop_first() =~= Seq::<MemberCapability>::empty());
        assert(l.drop_last() =~= Seq::<MemberCapability>::empty());
        assert(caps_items(l) =~= cap_item(l[0]) + caps_items(l.drop_first()));
    }
}

/// The tag texts, their byte encodings and lengths.
pub(crate) proof fn lemma_cap_tags()
    ensures
        forall|c: MemberCapability| encode_utf8(#[trigger] cap_tag(c)).len() == cap_tag(c).len(),
        forall|c: MemberCapability, i: int|
            0 <= i < cap_tag(c).len() ==> #[trigger] encode_utf8(cap_tag(c))[i] == cap_tag(c)[i] as u8,
        forall|c: MemberCapability| 0 < #[trigger] cap_tag(c).len() < 256,
{
    reveal_strlit("read");
    reveal_strlit("write");
    reveal_strlit("delegate");
    reveal_strlit("admin");
    reveal_strlit("sign_rotation");
    assert forall|c: MemberCapability| encode_utf8(#[trigger] cap_tag(c)).len() == cap_tag(c).len()
        && forall|i: int|
        0 <= i < cap_tag(c).len() ==> #[trigger] encode_utf8(cap_tag(c))[i] == cap_tag(c)[i] as u8 by {
        assert(vstd::utf8::is_ascii_chars(cap_tag(c)));
        vstd::utf8::is_ascii_chars_encode_utf8(cap_tag(c));
    }
}

/// Two framed tags that begin two equal byte strings are the same tag, and
/// what follows them is equal.
pub(crate) proof fn lemma_cap_item_prefix(c1: MemberCapability, c2: MemberCapability, x: Seq<u8>, y: Seq<u8>)
    requires
        cap_item(c1) + x == cap_item(c2) + y,
    ensures
        c1 == c2,
        x == y,
{
    lemma_cap_tags();
    reveal_strlit("read");
    reveal_strlit("write");
    reveal_strlit("delegate");
    reveal_strlit("admin");
    reveal_strlit("sign_rotation");
    let s = cap_item(c1) + x;
    let t1 = encode_utf8(cap_tag(c1));
    let t2 = encode_utf8(cap_tag(c2));
    crate::seqs::lemma_le_bytes_len(t1.len(), 2);
    crate::seqs::lemma_le_bytes_len(t2.len(), 2);
    assert(s[0] == (t1.len() % 256) as u8);
    assert((cap_item(c2) + y)[0] == (t2.len() % 256) as u8);
    assert(t1.len() == t2.len());
    if c1 != c2 {
        // Equal lengths leave "write" against "admin": they differ at the
        // first character.
        assert(s[2] == t1[0]);
        assert((cap_item(c2) + y)[2] == t2[0]);
        assert(t1[0] != t2[0]);
    }
    assert(cap_item(c1).len() == cap_item(c2).len());
    assert(x =~= s.subrange(cap_item(c1).len() as int, s.len() as int));
    assert(y =~= (cap_item(c2) + y).subrange(cap_item(c2).len() as int, s.len() as int));
}

/// Distinct capability lists have distinct encodings.
proof fn lemma_caps_items_injective(a: Seq<MemberCapability>, b: Seq<MemberCapability>)
    requires
        caps_items(a) == caps_items(b),
    ensures
        a == b,
    decreases a.len(),
{
    if a.len() == 0 {
        if b.len() > 0 {
            lemma_caps_items_front(b);
            lemma_cap_tags();
            assert(caps_items(b).len() > 0);
        }
        assert(a =~= b);
    } else if b.len() == 0 {
        lemma_caps_items_front(a);
        lemma_cap_tags();
        assert(caps_items(a).len() > 0);
    } else {
        lemma_caps_items_front(a);
        lemma_caps_items_front(b);
        lemma_cap_item_prefix(a[0], b[0], caps_items(a.drop_first()), caps_items(b.drop_first()));
        lemma_caps_items_injective(a.drop_first(), b.drop_first());
        assert(a =~= seq![a[0]] + a.drop_first());
        assert(b =~= seq![b[0]] + b.drop_first());
    }
}

/// The capability encoding does not alias: distinct sets encode to distinct
/// bytes.
#[verifier::rlimit(40)]
pub proof fn law_caps_encoding_injective(a: CapabilitySet, b: CapabilitySet)
    requires
        caps_bytes(a) == caps_bytes(b),
    ensures
        a == b,
{
    crate::seqs::lemma_le_bytes_len(cap_list(a).len(), 4);
    crate::seqs::lemma_le_bytes_len(cap_list(b).len(), 4);
    assert(caps_items(cap_list(a)) =~= caps_bytes(a).subrange(4, caps_bytes(a).len() as int));
    assert(caps_items(cap_list(b)) =~= caps_bytes(b).subrange(4, caps_bytes(b).len() as int));
    lemma_caps_items_injective(cap_list(a), cap_list(b));
    lemma_cap_list_injective(a, b);
}

/// Sets with the same capability list are the same set.
#[verifier::spinoff_prover]
#[verifier::rlimit(40)]
pub(crate) proof fn lemma_cap_list_injective(a: CapabilitySet, b: CapabilitySet)
    requires
        cap_list(a) == cap_list(b),
    ensures
        a == b,
{
    lemma_cap_list_contains(a);
    lemma_cap_list_contains(b);
    assert(has_cap(a, MemberCapability::Read) == has_cap(b, MemberCapability::Read));
    assert(has_cap(a, MemberCapability::Write) == has_cap(b, MemberCapability::Write));
    assert(has_cap(a, MemberCapability::Delegate) == has_cap(b, MemberCapability::Delegate));
    assert(has_cap(a, MemberCapability::Admin) == has_cap(b, MemberCapability::Admin));
    assert(has_cap(a, MemberCapability::SignRotation) == has_cap(
        b,
        MemberCapability::SignRotation,
    ));
}

/// A set holds exactly the capabilities of its list.
#[verifier::spinoff_prover]
#[verifier::rlimit(40)]
pub proof fn lemma_cap_list_contains(s: CapabilitySet)
    ensures
        forall|c: MemberCapability| #[trigger] has_cap(s, c) <==> cap_list(s).contains(c),
{
    let l = cap_list(s);
    let a = if s.read { seq![MemberCapability::Read] } else { Seq::empty() };
    let b = if s.write { seq![MemberCapability::Write] } else { Seq::empty() };
    let c = if s.delegate { seq![MemberCapability::Delegate] } else { Seq::empty() };
    let d = if s.admin { seq![MemberCapability::Admin] } else { Seq::empty() };
    let e = if s.sign_rotation { seq![MemberCapability::SignRotation] } else { Seq::empty() };
    assert(l == a + b + c + d + e);
    let o1 = a.len() as int;
    let o2 = o1 + b.len();
    let o3 = o2 + c.len();
    let o4 = o3 + d.len();
    assert forall|i: int| 0 <= i < l.len() implies has_cap(s, #[trigger] l[i]) by {
        if i < o1 {
            assert(l[i] == a[i]);
        } else if i < o2 {
            assert(l[i] == b[i - o1]);
        } else if i < o3 {
            assert(l[i] == c[i - o2]);
        } else if i < o4 {
            assert(l[i] == d[i - o3]);
        } else {
            assert(l[i] == e[i - o4]);
        }
    }
    if s.read {
        assert(l[0] == MemberCapability::Read);
    }
    if s.write {
        assert(l[o1] == MemberCapability::Write);
    }
    if s.delegate {
        assert(l[o2] == MemberCapability::Delegate);
    }
    if s.admin {
        assert(l[o3] == MemberCapability::Admin);
    }
    if s.sign_rotation {
        assert(l[o4] == MemberCapability::SignRotation);
    }
}

// ---------------------------------------------------------------------------
// KeyspaceDocHash
// ---------------------------------------------------------------------------

/// BLAKE3 hash of a [`KeyspaceDoc`]'s canonical bytes (shown as Base58).
#[derive(Clone, Copy, Debug, PartialEq, Eq, Hash)]
pub struct KeyspaceDocHash(pub(crate) [u8; 32]);

impl View for KeyspaceDocHash {
    type V = Seq<u8>;

    closed spec fn view(&self) -> Seq<u8> {
        self.0@
    }
}

/// A document hash has 32 bytes.
pub proof fn lemma_doc_hash_len(a: KeyspaceDocHash)
    ensures
        a@.len() == 32,
{
}

/// Values with the same bytes are equal.
pub proof fn lemma_doc_hash_ext(a: KeyspaceDocHash, b: KeyspaceDocHash)
    requires
        a@ == b@,
    ensures
        a == b,
{
    broadcast use vstd::array::group_array_axioms;

    assert forall|i: int| 0 <= i < 32 implies a.0[i] == b.0[i] by {
        assert(a.0@[i] == b.0@[i]);
    }
    assert(a.0 =~= b.0);
}

impl KeyspaceDocHash {
    pub fn from_bytes(bytes: [u8; 32]) -> (r: Self)
        ensures
            r@ == bytes@,
    {
        Self(bytes)
    }

    pub fn as_bytes(&self) -> (r: &[u8; 32])
        ensures
            r@ == self@,
    {
        &self.0
    }

    /// The Base58 text of the hash; parsing it gives the hash back.
    pub fn to_string(&self) -> (r: String)
        ensures
            r@ == base58_text(self@),
            base58_bytes(r@) == Some(self@),
    {
        base58_encode(self.0.as_slice())
    }

    /// Parse the Base58 text of a hash.
    pub fn from_base58(s: &str) -> (r: Result<Self, AuthError>)
        ensures
            match r {
                Ok(h) => base58_bytes(s@) == Some(h@),
                Err(e) => e is InvalidEncoding && !(base58_bytes(s@) matches Some(b) && b.len()
                    == 32),
            },
    {
        match decode_base58_32(s) {
            Some(a) => Ok(Self(a)),
            None => Err(
                AuthError::InvalidEncoding("KeyspaceDocHash: expected Base58 of 32 bytes".to_owned()),
            ),
        }
    }
}

impl core::str::FromStr for KeyspaceDocHash {
    type Err = AuthError;

    fn from_str(s: &str) -> (r: Result<Self, AuthError>)
        ensures
            match r {
                Ok(h) => base58_bytes(s@) == Some(h@),
                Err(e) => e is InvalidEncoding && !(base58_bytes(s@) matches Some(b) && b.len()
                    == 32),
            },
    {
        Self::from_base58(s)
    }
}

// ---------------------------------------------------------------------------
// RotationMode, MemberCapability, DecryptionPolicy
// ---------------------------------------------------------------------------

/// The purpose of a keyspace document version.
#[derive(Clone, Debug, PartialEq, Eq)]
pub enum RotationMode {
    /// Initial creation of the keyspace.
    Create,
    /// Add members without rekeying.
    Additive,
    /// Routine key rotation (no membership change).
    Hygiene,
    /// Remove members and re-key.
    Revoke { removed: Vec<PublicKeyFingerprint> },
    /// Remove members and destroy old epoch keys.
    Burn { removed: Vec<PublicKeyFingerprint> },
    /// Fork into a new keyspace.
    Fork { new_id: KeyspaceId },
    /// Permanently seal the keyspace.
    Tombstone,
}

/// Capability granted to a keyspace member.
#[derive(Clone, Copy, Debug, PartialEq, Eq, Structural, PartialOrd, Ord, Hash)]
pub enum MemberCapability {
    Read,
    Write,
    Delegate,
    Admin,
    SignRotation,
}

/// The capabilities, also called permissions when carried by a token.
pub type Permission = MemberCapability;

/// The tag of a capability.
pub open spec fn cap_tag(c: MemberCapability) -> Seq<char> {
    match c {
        MemberCapability::Read => "read"@,
        MemberCapability::Write => "write"@,
        MemberCapability::Delegate => "delegate"@,
        MemberCapability::Admin => "admin"@,
        MemberCapability::SignRotation => "sign_rotation"@,
    }
}

/// ASCII lower-casing of one character.
pub open spec fn ascii_lower(c: char) -> char {
    if 'A' <= c && c <= 'Z' {
        ((c as u32) + 32) as char
    } else {
        c
    }
}

/// ASCII lower-casing of a text.
pub open spec fn ascii_lower_text(s: Seq<char>) -> Seq<char> {
    Seq::new(s.len(), |i: int| ascii_lower(s[i]))
}

/// Whether `s` equals `tag` ignoring ASCII case (`tag` is lower case).
fn eq_ignore_ascii_case(s: &str, tag: &str) -> (r: bool)
    ensures
        r == (ascii_lower_text(s@) == tag@),
{
    let n = s.unicode_len();
    if n != tag.unicode_len() {
        return false;
    }
    let mut i: usize = 0;
    while i < n
        invariant
            n == s@.len(),
            n == tag@.len(),
            i <= n,
            forall|j: int| 0 <= j < i ==> ascii_lower(#[trigger] s@[j]) == tag@[j],
        decreases n - i,
    {
        let c = s.get_char(i);
        let t = tag.get_char(i);
        let same = if 'A' <= c && c <= 'Z' {
            (c as u32) + 32 == (t as u32)
        } else {
            c == t
        };
        if !same {
            assert(ascii_lower_text(s@)[i as int] != tag@[i as int]);
            return false;
        }
        i = i + 1;
    }
    assert(ascii_lower_text(s@) =~= tag@);
    true
}

impl MemberCapability {
    /// The tag used in canonical encodings.
    pub fn as_str(&self) -> (r: &'static str)
        ensures
            r@ == cap_tag(*self),
    {
        match self {
            MemberCapability::Read => "read",
            MemberCapability::Write => "write",
            MemberCapability::Delegate => "delegate",
            MemberCapability::Admin => "admin",
            MemberCapability::SignRotation => "sign_rotation",
        }
    }

    /// Parse a tag, ignoring ASCII case.
    pub fn parse(s: &str) -> (r: Option<Self>)
        ensures
            match r {
                Some(c) => cap_tag(c) == ascii_lower_text(s@),
                None => forall|c: MemberCapability| cap_tag(c) != ascii_lower_text(s@),
            },
    {
        if eq_ignore_ascii_case(s, "read") {
            Some(MemberCapability::Read)
        } else if eq_ignore_ascii_case(s, "write") {
            Some(MemberCapability::Write)
        } else if eq_ignore_ascii_case(s, "delegate") {
            Some(MemberCapability::Delegate)
        } else if eq_ignore_ascii_case(s, "admin") {
            Some(MemberCapability::Admin)
        } else if eq_ignore_ascii_case(s, "sign_rotation") {
            Some(MemberCapability::SignRotation)
        } else {
            proof {
                assert forall|c: MemberCapability| cap_tag(c) != ascii_lower_text(s@) by {
                    match c {
                        MemberCapability::Read => {},
                        MemberCapability::Write => {},
                        MemberCapability::Delegate => {},
                        MemberCapability::Admin => {},
                        MemberCapability::SignRotation => {},
                    }
                }
            }
            None
        }
    }
}

/// A set of member capabilities, kept in capability order (read, write,
/// delegate, admin, sign_rotation).
#[derive(Clone, Copy, Debug, PartialEq, Eq, Structural, Hash, Default)]
pub struct CapabilitySet {
    pub read: bool,
    pub write: bool,
    pub delegate: bool,
    pub admin: bool,
    pub sign_rotation: bool,
}

/// Whether the set holds the capability.
pub open spec fn has_cap(s: CapabilitySet, c: MemberCapability) -> bool {
    match c {
        MemberCapability::Read => s.read,
        MemberCapability::Write => s.write,
        MemberCapability::Delegate => s.delegate,
        MemberCapability::Admin => s.admin,
        MemberCapability::SignRotation => s.sign_rotation,
    }
}

/// Whether one of the texts is the tag of `c`, ASCII case ignored.
pub open spec fn tags_name(tags: Seq<String>, c: MemberCapability) -> bool {
    exists|i: int| 0 <= i < tags.len() && cap_tag(c) == ascii_lower_text(#[trigger] tags[i]@)
}

/// The texts are the tags of the capabilities, in order.
pub open spec fn tags_of(tags: Seq<String>, caps: Seq<MemberCapability>) -> bool {
    tags.len() == caps.len() && forall|i: int| 0 <= i < caps.len() ==> #[trigger] tags[i]@ == cap_tag(
        caps[i],
    )
}

/// Distinct capabilities have distinct tags.
pub proof fn lemma_cap_tag_injective(a: MemberCapability, b: MemberCapability)
    requires
        cap_tag(a) == cap_tag(b),
    ensures
        a == b,
{
    reveal_strlit("read");
    reveal_strlit("write");
    reveal_strlit("delegate");
    reveal_strlit("admin");
    reveal_strlit("sign_rotation");
    assert("read"@.len() == 4);
    assert("write"@.len() == 5);
    assert("delegate"@.len() == 8);
    assert("admin"@.len() == 5);
    assert("sign_rotation"@.len() == 13);
    assert("write"@[0] == 'w');
    assert("admin"@[0] == 'a');
    assert(cap_tag(a).len() == cap_tag(b).len());
    match a {
        MemberCapability::Read => assert(b == MemberCapability::Read),
        MemberCapability::Write => {
            assert(cap_tag(a)[0] == cap_tag(b)[0]);
            assert(b == MemberCapability::Write);
        },
        MemberCapability::Delegate => assert(b == MemberCapability::Delegate),
        MemberCapability::Admin => {
            assert(cap_tag(a)[0] == cap_tag(b)[0]);
            assert(b == MemberCapability::Admin);
        },
        MemberCapability::SignRotation => assert(b == MemberCapability::SignRotation),
    }
}

/// The tags are in lower case already.
pub proof fn lemma_cap_tag_lower(c: MemberCapability)
    ensures
        ascii_lower_text(cap_tag(c)) == cap_tag(c),
{
    reveal_strlit("read");
    reveal_strlit("write");
    reveal_strlit("delegate");
    reveal_strlit("admin");
    reveal_strlit("sign_rotation");
    assert(ascii_lower_text(cap_tag(c)) =~= cap_tag(c));
}

/// Reading back the tags of a set gives the set.
pub proof fn law_tags_roundtrip(s: CapabilitySet, tags: Seq<String>)
    requires
        tags_of(tags, cap_list(s)),
    ensures
        forall|c: MemberCapability| tags_name(tags, c) <==> has_cap(s, c),
{
    lemma_cap_list_contains(s);
    let l = cap_list(s);
    assert forall|c: MemberCapability| tags_name(tags, c) <==> has_cap(s, c) by {
        if tags_name(tags, c) {
            let k = choose|k: int| 0 <= k < tags.len() && cap_tag(c) == ascii_lower_text(
                #[trigger] tags[k]@,
            );
            assert(tags[k]@ == cap_tag(l[k]));
            lemma_cap_tag_lower(l[k]);
            lemma_cap_tag_injective(c, l[k]);
        }
        if has_cap(s, c) {
            let k = choose|k: int| 0 <= k < l.len() && l[k] == c;
            assert(tags[k]@ == cap_tag(l[k]));
            lemma_cap_tag_lower(c);
        }
    }
}

/// The capabilities of a set, in capability order.
pub open spec fn cap_list(s: CapabilitySet) -> Seq<MemberCapability> {
    let a = if s.read { seq![MemberCapability::Read] } else { Seq::empty() };
    let b = if s.write { seq![MemberCapability::Write] } else { Seq::empty() };
    let c = if s.delegate { seq![MemberCapability::Delegate] } else { Seq::empty() };
    let d = if s.admin { seq![MemberCapability::Admin] } else { Seq::empty() };
    let e = if s.sign_rotation { seq![MemberCapability::SignRotation] } else { Seq::empty() };
    a + b + c + d + e
}

impl View for CapabilitySet {
    type V = Set<MemberCapability>;

    open spec fn view(&self) -> Set<MemberCapability> {
        Set::new(|c: MemberCapability| has_cap(*self, c))
    }
}

impl CapabilitySet {
    /// The empty set.
    pub fn new() -> (r: Self)
        ensures
            r@ == Set::<MemberCapability>::empty(),
            forall|c: MemberCapability| !has_cap(r, c),
    {
        let r = CapabilitySet {
            read: false,
            write: false,
            delegate: false,
            admin: false,
            sign_rotation: false,
        };
        assert(r@ =~= Set::<MemberCapability>::empty());
        r
    }

    /// The set holding the listed capabilities.
    pub fn from_slice(caps: &[MemberCapability]) -> (r: Self)
        ensures
            forall|c: MemberCapability| has_cap(r, c) <==> caps@.contains(c),
    {
        let mut r = CapabilitySet::new();
        let mut i: usize = 0;
        while i < caps.len()
            invariant
                i <= caps@.len(),
                forall|c: MemberCapability| has_cap(r, c) <==> caps@.take(i as int).contains(c),
            decreases caps.len() - i,
        {
            let ghost before = r;
            r.insert(caps[i]);
            assert forall|c: MemberCapability| has_cap(r, c) <==> caps@.take(i + 1).contains(c) by {
                let t1 = caps@.take(i as int);
                let t2 = caps@.take(i + 1);
                assert(t2 =~= t1.push(caps@[i as int]));
                if t1.contains(c) {
                    let k = choose|k: int| 0 <= k < t1.len() && t1[k] == c;
                    assert(t2[k] == c);
                }
                if c == caps@[i as int] {
                    assert(t2[i as int] == c);
                }
                if t2.contains(c) {
                    let k = choose|k: int| 0 <= k < t2.len() && t2[k] == c;
                    if k < i {
                        assert(t1[k] == c);
                    }
                }
            }
            i = i + 1;
        }
        assert(caps@.take(caps@.len() as int) =~= caps@);
        r
    }

    /// Add a capability.
    pub fn insert(&mut self, c: MemberCapability)
        ensures
            forall|d: MemberCapability| has_cap(*final(self), d) <==> (has_cap(*old(self), d) || d == c),
    {
        match c {
            MemberCapability::Read => self.read = true,
            MemberCapability::Write => self.write = true,
            MemberCapability::Delegate => self.delegate = true,
            MemberCapability::Admin => self.admin = true,
            MemberCapability::SignRotation => self.sign_rotation = true,
        }
    }

    /// Whether the set holds `c`.
    pub fn contains(&self, c: MemberCapability) -> (r: bool)
        ensures
            r == has_cap(*self, c),
    {
        match c {
            MemberCapability::Read => self.read,
            MemberCapability::Write => self.write,
            MemberCapability::Delegate => self.delegate,
            MemberCapability::Admin => self.admin,
            MemberCapability::SignRotation => self.sign_rotation,
        }
    }

    /// The number of capabilities in the set.
    pub fn len(&self) -> (r: usize)
        ensures
            r == cap_list(*self).len(),
    {
        let mut n: usize = 0;
        if self.read {
            n = n + 1;
        }
        if self.write {
            n = n + 1;
        }
        if self.delegate {
            n = n + 1;
        }
        if self.admin {
            n = n + 1;
        }
        if self.sign_rotation {
            n = n + 1;
        }
        n
    }

    /// The capabilities, in capability order.
    pub fn to_vec(&self) -> (r: Vec<MemberCapability>)
        ensures
            r@ == cap_list(*self),
    {
        let mut v: Vec<MemberCapability> = Vec::new();
        if self.read {
            v.push(MemberCapability::Read);
        }
        if self.write {
            v.push(MemberCapability::Write);
        }
        if self.delegate {
            v.push(MemberCapability::Delegate);
        }
        if self.admin {
            v.push(MemberCapability::Admin);
        }
        if self.sign_rotation {
            v.push(MemberCapability::SignRotation);
        }
        assert(v@ =~= cap_list(*self));
        v
    }

    /// The set of the capabilities whose tags the list holds, ASCII case
    /// ignored; other texts are skipped.
    pub fn from_tags(tags: &[String]) -> (r: Self)
        ensures
            forall|c: MemberCapability| has_cap(r, c) <==> tags_name(tags@, c),
    {
        let mut r = CapabilitySet::new();
        let mut i: usize = 0;
        while i < tags.len()
            invariant
                i <= tags@.len(),
                forall|c: MemberCapability| has_cap(r, c) <==> tags_name(tags@.take(i as int), c),
            decreases tags.len() - i,
        {
            let parsed = MemberCapability::parse(tags[i].as_str());
            let ghost before = r;
            if let Some(c) = parsed {
                r.insert(c);
            }
            proof {
                let t1 = tags@.take(i as int);
                let t2 = tags@.take(i + 1);
                assert(t2 =~= t1.push(tags@[i as int]));
                assert forall|c: MemberCapability| has_cap(r, c) <==> tags_name(t2, c) by {
                    if tags_name(t1, c) {
                        let k = choose|k: int| 0 <= k < t1.len() && cap_tag(c) == ascii_lower_text(
                            #[trigger] t1[k]@,
                        );
                        assert(t2[k] == t1[k]);
                    }
                    if cap_tag(c) == ascii_lower_text(tags@[i as int]@) {
                        assert(t2[i as int] == tags@[i as int]);
                    }
                    if tags_name(t2, c) {
                        let k = choose|k: int| 0 <= k < t2.len() && cap_tag(c) == ascii_lower_text(
                            #[trigger] t2[k]@,
                        );
                        if k < i {
                            assert(t1[k] == t2[k]);
                        } else {
                            lemma_cap_tag_injective(c, parsed->0);
                        }
                    }
                }
            }
            i = i + 1;
        }
        assert(tags@.take(tags@.len() as int) =~= tags@);
        r
    }

    /// The tags of the capabilities, in capability order.
    pub fn tags(&self) -> (r: Vec<String>)
        ensures
            tags_of(r@, cap_list(*self)),
    {
        let caps = self.to_vec();
        let mut out: Vec<String> = Vec::new();
        let mut i: usize = 0;
        while i < caps.len()
            invariant
                i <= caps@.len(),
                caps@ == cap_list(*self),
                tags_of(out@, caps@.take(i as int)),
            decreases caps.len() - i,
        {
            let t = caps[i].as_str().to_owned();
            out.push(t);
            proof {
                assert(caps@.take(i + 1).take(i as int) =~= caps@.take(i as int));
            }
            i = i + 1;
        }
        assert(caps@.take(caps@.len() as int) =~= caps@);
        out
    }
}

/// How a member's decryption key is delivered.
#[derive(Clone, Debug, PartialEq, Eq)]
pub enum DecryptionPolicy {
    /// The member holds the full decryption key.
    Standalone,
    /// The member holds a threshold share.
    ThresholdShare {
        threshold: u8,
        total: u8,
        /// Content hash of the threshold policy document.
        policy_ref: [u8; 32],
    },
}

/// A participant in a keyspace.
#[derive(Clone, Debug, PartialEq, Eq)]
pub struct Member {
    pub fingerprint: PublicKeyFingerprint,
    pub capabilities: CapabilitySet,
    pub decryption_policy: DecryptionPolicy,
    pub added_at: u64,
    pub added_by: PublicKeyFingerprint,
}

// ---------------------------------------------------------------------------
// Canonical encoding
// ---------------------------------------------------------------------------

/// A byte string framed by its length as four little-endian bytes.
pub open spec fn len_prefixed(b: Seq<u8>) -> Seq<u8> {
    le_bytes(b.len(), 4) + b
}

/// The encoding of the capabilities in order: each tag framed by its length
/// as two little-endian bytes.
pub open spec fn caps_items(l: Seq<MemberCapability>) -> Seq<u8>
    decreases l.len(),
{
    if l.len() == 0 {
        Seq::empty()
    } else {
        caps_items(l.drop_last()) + le_bytes(encode_utf8(cap_tag(l.last())).len(), 2) + encode_utf8(
            cap_tag(l.last()),
        )
    }
}

/// The encoding of a capability set: the count as four little-endian bytes,
/// then the framed tags in capability order.
pub open spec fn caps_bytes(s: CapabilitySet) -> Seq<u8> {
    le_bytes(cap_list(s).len(), 4) + caps_items(cap_list(s))
}

/// Concatenated fingerprints.
pub open spec fn fingerprints_bytes(l: Seq<PublicKeyFingerprint>) -> Seq<u8>
    decreases l.len(),
{
    if l.len() == 0 {
        Seq::empty()
    } else {
        fingerprints_bytes(l.drop_last()) + l.last()@
    }
}

/// The encoding of a rotation mode: a tag byte, then its data.
pub open spec fn rotation_bytes(m: RotationMode) -> Seq<u8> {
    match m {
        RotationMode::Create => seq![1u8],
        RotationMode::Additive => seq![2u8],
        RotationMode::Hygiene => seq![3u8],
        RotationMode::Revoke { removed } => seq![4u8] + le_bytes(removed@.len(), 4)
            + fingerprints_bytes(removed@),
        RotationMode::Burn { removed } => seq![5u8] + le_bytes(removed@.len(), 4)
            + fingerprints_bytes(removed@),
        RotationMode::Fork { new_id } => seq![6u8] + new_id@,
        RotationMode::Tombstone => seq![7u8],
    }
}

/// The encoding of a decryption policy.
pub open spec fn policy_bytes(p: DecryptionPolicy) -> Seq<u8> {
    match p {
        DecryptionPolicy::Standalone => seq![1u8],
        DecryptionPolicy::ThresholdShare { threshold, total, policy_ref } => seq![
            2u8,
            threshold,
            total,
        ] + policy_ref@,
    }
}

/// The encoding of a member.
pub open spec fn member_bytes(m: Member) -> Seq<u8> {
    m.fingerprint@ + caps_bytes(m.capabilities) + policy_bytes(m.decryption_policy) + le_bytes(
        m.added_at as nat,
        8,
    ) + m.added_by@
}

/// Concatenated member encodings.
pub open spec fn members_bytes(l: Seq<Member>) -> Seq<u8>
    decreases l.len(),
{
    if l.len() == 0 {
        Seq::empty()
    } else {
        members_bytes(l.drop_last()) + member_bytes(l.last())
    }
}

/// Concatenated length-prefixed signatures.
pub open spec fn signatures_bytes(l: Seq<Vec<u8>>) -> Seq<u8>
    decreases l.len(),
{
    if l.len() == 0 {
        Seq::empty()
    } else {
        signatures_bytes(l.drop_last()) + len_prefixed(l.last()@)
    }
}

/// The domain-separation tag of keyspace documents: "IdentikeyKeyspaceDoc" and
/// a format byte.
pub open spec fn doc_domain_tag() -> Seq<u8> {
    seq![73u8, 100, 101, 110, 116, 105, 107, 101, 121, 75, 101, 121, 115, 112, 97, 99, 101, 68, 111, 99, 1]
}

fn push_doc_domain_tag(out: &mut Vec<u8>)
    ensures
        final(out)@ == old(out)@ + doc_domain_tag(),
{
    let tag: Vec<u8> = vec![73u8, 100, 101, 110, 116, 105, 107, 101, 121, 75, 101, 121, 115, 112, 97, 99, 101, 68, 111, 99, 1];
    append_bytes(out, tag.as_slice());
    assert(tag@ =~= doc_domain_tag());
}

/// Append the encoding of a capability set.
#[verifier::spinoff_prover]
#[verifier::rlimit(40)]
pub(crate) fn write_capabilities(out: &mut Vec<u8>, caps: &CapabilitySet)
    ensures
        final(out)@ == old(out)@ + caps_bytes(*caps),
{
    let list = caps.to_vec();
    push_le(out, caps.len() as u64, 4);
    let ghost start = out@;
    let mut i: usize = 0;
    while i < list.len()
        invariant
            i <= list@.len(),
            list@ == cap_list(*caps),
            out@ == start + caps_items(list@.take(i as int)),
        decreases list.len() - i,
    {
        let tag = list[i].as_str().as_bytes();
        let ghost before = out@;
        push_le(out, tag.len() as u64, 2);
        append_bytes(out, tag);
        proof {
            let t = list@.take(i + 1);
            assert(t.drop_last() =~= list@.take(i as int));
            assert(t.last() == list@[i as int]);
            assert(caps_items(t) == caps_items(t.drop_last()) + le_bytes(
                encode_utf8(cap_tag(t.last())).len(),
                2,
            ) + encode_utf8(cap_tag(t.last())));
        }
        i = i + 1;
    }
    assert(list@.take(list@.len() as int) =~= list@);
}

fn push_fingerprints(out: &mut Vec<u8>, fps: &Vec<PublicKeyFingerprint>)
    ensures
        final(out)@ == old(out)@ + le_bytes(fps@.len(), 4) + fingerprints_bytes(fps@),
{
    push_le(out, fps.len() as u64, 4);
    let ghost start = out@;
    let mut i: usize = 0;
    while i < fps.len()
        invariant
            i <= fps@.len(),
            out@ == start + fingerprints_bytes(fps@.take(i as int)),
        decreases fps.len() - i,
    {
        append_bytes(out, fps[i].as_bytes().as_slice());
        assert(fps@.take(i + 1).drop_last() =~= fps@.take(i as int));
        i = i + 1;
    }
    assert(fps@.take(fps@.len() as int) =~= fps@);
}

fn encode_rotation_mode(out: &mut Vec<u8>, mode: &RotationMode)
    ensures
        final(out)@ == old(out)@ + rotation_bytes(*mode),
{
    match mode {
        RotationMode::Create => out.push(1),
        RotationMode::Additive => out.push(2),
        RotationMode::Hygiene => out.push(3),
        RotationMode::Revoke { removed } => {
            out.push(4);
            push_fingerprints(out, removed);
        },
        RotationMode::Burn { removed } => {
            out.push(5);
            push_fingerprints(out, removed);
        },
        RotationMode::Fork { new_id } => {
            out.push(6);
            append_bytes(out, new_id.as_bytes().as_slice());
        },
        RotationMode::Tombstone => out.push(7),
    }
}

fn encode_decryption_policy(out: &mut Vec<u8>, policy: &DecryptionPolicy)
    ensures
        final(out)@ == old(out)@ + policy_bytes(*policy),
{
    match policy {
        DecryptionPolicy::Standalone => out.push(1),
        DecryptionPolicy::ThresholdShare { threshold, total, policy_ref } => {
            out.push(2);
            out.push(*threshold);
            out.push(*total);
            append_bytes(out, policy_ref.as_slice());
        },
    }
}

fn write_len_prefixed(out: &mut Vec<u8>, bytes: &[u8])
    ensures
        final(out)@ == old(out)@ + len_prefixed(bytes@),
{
    push_le(out, bytes.len() as u64, 4);
    append_bytes(out, bytes);
}

fn encode_member(out: &mut Vec<u8>, m: &Member)
    ensures
        final(out)@ == old(out)@ + member_bytes(*m),
{
    append_bytes(out, m.fingerprint.as_bytes().as_slice());
    write_capabilities(out, &m.capabilities);
    encode_decryption_policy(out, &m.decryption_policy);
    push_le(out, m.added_at, 8);
    append_bytes(out, m.added_by.as_bytes().as_slice());
}

fn encode_members(out: &mut Vec<u8>, members: &Vec<Member>)
    ensures
        final(out)@ == old(out)@ + le_bytes(members@.len(), 4) + members_bytes(members@),
{
    push_le(out, members.len() as u64, 4);
    let ghost start = out@;
    let mut i: usize = 0;
    while i < members.len()
        invariant
            i <= members@.len(),
            out@ == start + members_bytes(members@.take(i as int)),
        decreases members.len() - i,
    {
        encode_member(out, &members[i]);
        assert(members@.take(i + 1).drop_last() =~= members@.take(i as int));
        i = i + 1;
    }
    assert(members@.take(members@.len() as int) =~= members@);
}

fn encode_signatures(out: &mut Vec<u8>, sigs: &Vec<Vec<u8>>)
    ensures
        final(out)@ == old(out)@ + le_bytes(sigs@.len(), 4) + signatures_bytes(sigs@),
{
    push_le(out, sigs.len() as u64, 4);
    let ghost start = out@;
    let mut i: usize = 0;
    while i < sigs.len()
        invariant
            i <= sigs@.len(),
            out@ == start + signatures_bytes(sigs@.take(i as int)),
        decreases sigs.len() - i,
    {
        write_len_prefixed(out, sigs[i].as_slice());
        assert(sigs@.take(i + 1).drop_last() =~= sigs@.take(i as int));
        i = i + 1;
    }
    assert(sigs@.take(sigs@.len() as int) =~= sigs@);
}

// ---------------------------------------------------------------------------
// KeyspaceDoc
// ---------------------------------------------------------------------------

/// A versioned, signed keyspace document. Versions form a hash-linked chain
/// through `parent`.
#[derive(Clone, Debug)]
pub struct KeyspaceDoc {
    pub id: KeyspaceId,
    pub version: u64,
    pub parent: Option<KeyspaceDocHash>,
    pub mode: RotationMode,
    pub name: String,
    /// Root public key (placeholder bytes for now).
    pub root_pk: Vec<u8>,
    /// Content hash of the epoch's re-encryption public key (placeholder).
    pub epoch_pre_pk: [u8; 32],
    pub epoch: u64,
    pub members: Vec<Member>,
    pub quorum: u8,
    /// Signatures (placeholder bytes for now).
    pub signatures: Vec<Vec<u8>>,
    pub created_at: u64,
}

/// The encoding of the parent link: 0, or 1 and the parent hash.
pub open spec fn parent_bytes(p: Option<KeyspaceDocHash>) -> Seq<u8> {
    match p {
        Some(h) => seq![1u8] + h@,
        None => seq![0u8],
    }
}

/// The canonical bytes of a keyspace document: every variable-width field
/// framed by its length, behind a domain tag and the format version.
pub open spec fn doc_bytes(d: KeyspaceDoc) -> Seq<u8> {
    doc_domain_tag() + le_bytes(1, 4) + d.id@ + le_bytes(d.version as nat, 8) + parent_bytes(
        d.parent,
    ) + rotation_bytes(d.mode) + len_prefixed(encode_utf8(d.name@)) + len_prefixed(d.root_pk@)
        + d.epoch_pre_pk@ + le_bytes(d.epoch as nat, 8) + le_bytes(d.members@.len(), 4)
        + members_bytes(d.members@) + seq![d.quorum] + le_bytes(d.signatures@.len(), 4)
        + signatures_bytes(d.signatures@) + le_bytes(d.created_at as nat, 8)
}

/// The members holding `SignRotation`, in order.
pub open spec fn signers_of(l: Seq<Member>) -> Seq<Member>
    decreases l.len(),
{
    if l.len() == 0 {
        Seq::empty()
    } else if l.last().capabilities.sign_rotation {
        signers_of(l.drop_last()).push(l.last())
    } else {
        signers_of(l.drop_last())
    }
}

impl KeyspaceDoc {
    /// Version of the canonical encoding.
    pub const FORMAT_VERSION: u32 = 1;

    /// Deterministic canonical byte representation.
    pub fn canonical_bytes(&self) -> (r: Vec<u8>)
        ensures
            r@ == doc_bytes(*self),
    {
        let mut out: Vec<u8> = Vec::new();
        push_doc_domain_tag(&mut out);
        push_le(&mut out, 1, 4);
        append_bytes(&mut out, self.id.as_bytes().as_slice());
        push_le(&mut out, self.version, 8);
        match &self.parent {
            Some(p) => {
                out.push(1);
                append_bytes(&mut out, p.as_bytes().as_slice());
            },
            None => out.push(0),
        }
        encode_rotation_mode(&mut out, &self.mode);
        write_len_prefixed(&mut out, self.name.as_str().as_bytes());
        write_len_prefixed(&mut out, self.root_pk.as_slice());
        append_bytes(&mut out, self.epoch_pre_pk.as_slice());
        push_le(&mut out, self.epoch, 8);
        encode_members(&mut out, &self.members);
        out.push(self.quorum);
        encode_signatures(&mut out, &self.signatures);
        push_le(&mut out, self.created_at, 8);
        assert(out@ =~= doc_bytes(*self));
        out
    }

    /// BLAKE3 hash of the canonical bytes.
    pub fn doc_hash(&self) -> (r: KeyspaceDocHash)
        ensures
            r@ == blake3_digest(doc_bytes(*self)),
    {
        let bytes = self.canonical_bytes();
        KeyspaceDocHash(blake3_hash(bytes.as_slice()))
    }

    /// Members that hold the `SignRotation` capability, in order.
    pub fn signers(&self) -> (r: Vec<&Member>)
        ensures
            r@.len() == signers_of(self.members@).len(),
            forall|i: int| 0 <= i < r@.len() ==> *r@[i] == signers_of(self.members@)[i],
    {
        let mut out: Vec<&Member> = Vec::new();
        let mut i: usize = 0;
        while i < self.members.len()
            invariant
                i <= self.members@.len(),
                out@.len() == signers_of(self.members@.take(i as int)).len(),
                forall|j: int|
                    0 <= j < out@.len() ==> *out@[j] == signers_of(self.members@.take(i as int))[j],
            decreases self.members.len() - i,
        {
            assert(self.members@.take(i + 1).drop_last() =~= self.members@.take(i as int));
            if self.members[i].capabilities.contains(MemberCapability::SignRotation) {
                out.push(&self.members[i]);
            }
            i = i + 1;
        }
        assert(self.members@.take(self.members@.len() as int) =~= self.members@);
        out
    }

    /// Fingerprints of all current members, in order.
    pub fn member_fingerprints(&self) -> (r: Vec<&PublicKeyFingerprint>)
        ensures
            r@.len() == self.members@.len(),
            forall|i: int| 0 <= i < r@.len() ==> *r@[i] == self.members@[i].fingerprint,
    {
        let mut out: Vec<&PublicKeyFingerprint> = Vec::new();
        let mut i: usize = 0;
        while i < self.members.len()
            invariant
                i <= self.members@.len(),
                out@.len() == i,
                forall|j: int| 0 <= j < i ==> *out@[j] == self.members@[j].fingerprint,
            decreases self.members.len() - i,
        {
            out.push(&self.members[i].fingerprint);
            i = i + 1;
        }
        out
    }
}

} // verus!
