//! Row forms for a relational store: capability sets as comma-separated tag
//! lists, and access grants as rows of text and integer columns.

use vstd::prelude::*;

use crate::foreign::base58::{base58_bytes, base58_decode, base58_encode, base58_text};
use crate::foreign::text::vec_to_array32;
use crate::foreign::hash::blake3_digest;
use crate::storage::fingerprint::{lemma_fingerprint_ext, lemma_fingerprint_len, PublicKeyFingerprint};
use crate::storage::grant::{grant_bytes, lemma_grant_id_ext, lemma_grant_id_len, AccessGrant, GrantId};
use crate::storage::keyspace::{
    ascii_lower, ascii_lower_text, cap_list, cap_tag, has_cap, lemma_cap_list_contains,
    lemma_cap_tag_injective, lemma_cap_tag_lower, CapabilitySet, MemberCapability,
};

verus! {

/// Texts joined by commas.
pub open spec fn comma_join(l: Seq<Seq<char>>) -> Seq<char>
    decreases l.len(),
{
    if l.len() == 0 {
        Seq::empty()
    } else if l.len() == 1 {
        l[0]
    } else {
        l[0] + seq![','] + comma_join(l.drop_first())
    }
}

/// The position of the first comma at or after `i`, or the length.
pub open spec fn first_comma_from(s: Seq<char>, i: int) -> int
    decreases s.len() - i,
{
    if i >= s.len() {
        s.len() as int
    } else if s[i] == ',' {
        i
    } else {
        first_comma_from(s, i + 1)
    }
}

/// Where the first comma from a position can be.
pub proof fn lemma_first_comma_bounds(s: Seq<char>, i: int)
    requires
        0 <= i,
    ensures
        i <= s.len() ==> i <= first_comma_from(s, i) <= s.len(),
        first_comma_from(s, i) < s.len() ==> s[first_comma_from(s, i)] == ',',
        forall|m: int| i <= m < first_comma_from(s, i) ==> s[m] != ',',
    decreases s.len() - i,
{
    if i < s.len() && s[i] != ',' {
        lemma_first_comma_bounds(s, i + 1);
    }
}

/// The pieces of a text between commas from position `i` on, as
/// `str::split(',')` gives them.
pub open spec fn pieces_from(s: Seq<char>, i: int) -> Seq<Seq<char>>
    decreases s.len() - i,
    when 0 <= i <= s.len()
{
    let j = first_comma_from(s, i);
    proof {
        lemma_first_comma_bounds(s, i);
    }
    if j >= s.len() {
        seq![s.subrange(i, s.len() as int)]
    } else {
        seq![s.subrange(i, j)] + pieces_from(s, j + 1)
    }
}

/// The pieces of a text between commas.
pub open spec fn comma_pieces(s: Seq<char>) -> Seq<Seq<char>> {
    pieces_from(s, 0)
}

/// The tags of capabilities, in order.
pub open spec fn tag_texts(l: Seq<MemberCapability>) -> Seq<Seq<char>> {
    l.map_values(|c: MemberCapability| cap_tag(c))
}

/// One of the pieces is the tag of `c`, ASCII case ignored.
pub open spec fn pieces_name(pieces: Seq<Seq<char>>, c: MemberCapability) -> bool {
    exists|i: int| 0 <= i < pieces.len() && cap_tag(c) == ascii_lower_text(#[trigger] pieces[i])
}

/// The text of a capability set: its tags in capability order, joined by
/// commas.
pub open spec fn caps_text(s: CapabilitySet) -> Seq<char> {
    comma_join(tag_texts(cap_list(s)))
}

proof fn lemma_join_push(l: Seq<Seq<char>>, x: Seq<char>)
    requires
        l.len() > 0,
    ensures
        comma_join(l.push(x)) == comma_join(l) + seq![','] + x,
    decreases l.len(),
{
    if l.len() == 1 {
        assert(l.push(x).drop_first() =~= seq![x]);
        assert(comma_join(seq![x]) == x);
    } else {
        assert(l.push(x).drop_first() =~= l.drop_first().push(x));
        lemma_join_push(l.drop_first(), x);
        assert(comma_join(l.push(x)) =~= comma_join(l) + seq![','] + x);
    }
}

/// The text of a capability set, as stored.
pub fn caps_to_string(caps: &CapabilitySet) -> (r: String)
    ensures
        r@ == caps_text(*caps),
{
    let l = caps.to_vec();
    let mut out = String::new();
    let mut i: usize = 0;
    while i < l.len()
        invariant
            i <= l@.len(),
            l@ == cap_list(*caps),
            out@ == comma_join(tag_texts(l@.take(i as int))),
        decreases l.len() - i,
    {
        let tag = l[i].as_str();
        let ghost before = tag_texts(l@.take(i as int));
        proof {
            assert(tag_texts(l@.take(i + 1)) =~= before.push(cap_tag(l@[i as int])));
        }
        if i > 0 {
            out.append(",");
            out.append(tag);
            proof {
                reveal_strlit(",");
                assert(before.len() == i);
                lemma_join_push(before, cap_tag(l@[i as int]));
                assert(out@ =~= comma_join(before) + seq![','] + cap_tag(l@[i as int]));
            }
        } else {
            out.append(tag);
            assert(out@ =~= comma_join(tag_texts(l@.take(i + 1))));
        }
        i = i + 1;
    }
    assert(l@.take(l@.len() as int) =~= l@);
    out
}

/// Whether the characters `start..end` of `s` are `tag`, ASCII case
/// ignored (`tag` is lower case).
fn piece_is(s: &str, start: usize, end: usize, tag: &str) -> (r: bool)
    requires
        start <= end <= s@.len(),
    ensures
        r == (ascii_lower_text(s@.subrange(start as int, end as int)) == tag@),
{
    let n: usize = tag.unicode_len();
    if end - start != n {
        return false;
    }
    let mut i: usize = 0;
    while i < n
        invariant
            n == tag@.len(),
            end - start == n,
            start <= end <= s@.len(),
            i <= n,
            forall|j: int| 0 <= j < i ==> ascii_lower(#[trigger] s@[start + j]) == tag@[j],
        decreases n - i,
    {
        let c = s.get_char(start + i);
        let t = tag.get_char(i);
        let same = if 'A' <= c && c <= 'Z' {
            (c as u32) + 32 == (t as u32)
        } else {
            c == t
        };
        if !same {
            assert(ascii_lower_text(s@.subrange(start as int, end as int))[i as int] != tag@[i as int]);
            return false;
        }
        i = i + 1;
    }
    let ghost sub = s@.subrange(start as int, end as int);
    assert forall|j: int| 0 <= j < n implies ascii_lower_text(sub)[j] == tag@[j] by {
        assert(sub[j] == s@[start + j]);
    }
    assert(ascii_lower_text(sub) =~= tag@);
    true
}

/// The capability that a piece names, if any.
fn piece_capability(s: &str, start: usize, end: usize) -> (r: Option<MemberCapability>)
    requires
        start <= end <= s@.len(),
    ensures
        match r {
            Some(c) => cap_tag(c) == ascii_lower_text(s@.subrange(start as int, end as int)),
            None => forall|c: MemberCapability|
                cap_tag(c) != ascii_lower_text(s@.subrange(start as int, end as int)),
        },
{
    if piece_is(s, start, end, "read") {
        Some(MemberCapability::Read)
    } else if piece_is(s, start, end, "write") {
        Some(MemberCapability::Write)
    } else if piece_is(s, start, end, "delegate") {
        Some(MemberCapability::Delegate)
    } else if piece_is(s, start, end, "admin") {
        Some(MemberCapability::Admin)
    } else if piece_is(s, start, end, "sign_rotation") {
        Some(MemberCapability::SignRotation)
    } else {
        proof {
            assert forall|c: MemberCapability|
                cap_tag(c) != ascii_lower_text(s@.subrange(start as int, end as int)) by {
                match c {
                    MemberCapability::Read => {},
                    MemberCapability::Write => {},
                    MemberCapability::Delegate => {},
                    MemberCapability::Admin => {},
                    MemberCapability::SignRotation => {},
                }
            }
        }
        None
    }
}

/// The capability set a stored text names: each comma-separated piece that
/// is a tag, ASCII case ignored; other pieces are skipped.
pub fn string_to_caps(s: &str) -> (r: CapabilitySet)
    ensures
        forall|c: MemberCapability| has_cap(r, c) <==> pieces_name(comma_pieces(s@), c),
{
    let n: usize = s.unicode_len();
    let mut r = CapabilitySet::new();
    let mut start: usize = 0;
    let ghost mut done: Seq<Seq<char>> = Seq::empty();
    loop
        invariant
            n == s@.len(),
            start <= n,
            comma_pieces(s@) == done + pieces_from(s@, start as int),
            forall|c: MemberCapability| has_cap(r, c) <==> pieces_name(done, c),
        decreases n - start,
    {
        let mut j: usize = start;
        while j < n && s.get_char(j) != ','
            invariant
                n == s@.len(),
                start <= j <= n,
                forall|m: int| start <= m < j ==> s@[m] != ',',
            decreases n - j,
        {
            j = j + 1;
        }
        proof {
            lemma_first_comma_is(s@, start as int, j as int);
        }
        let piece = piece_capability(s, start, j);
        let ghost p = s@.subrange(start as int, j as int);
        let ghost before = r;
        if let Some(c) = piece {
            r.insert(c);
        }
        proof {
            let d2 = done.push(p);
            assert forall|c: MemberCapability| has_cap(r, c) <==> pieces_name(d2, c) by {
                if pieces_name(done, c) {
                    let k = choose|k: int| 0 <= k < done.len() && cap_tag(c) == ascii_lower_text(
                        #[trigger] done[k],
                    );
                    assert(d2[k] == done[k]);
                }
                if cap_tag(c) == ascii_lower_text(p) {
                    assert(d2[done.len() as int] == p);
                }
                if pieces_name(d2, c) {
                    let k = choose|k: int| 0 <= k < d2.len() && cap_tag(c) == ascii_lower_text(
                        #[trigger] d2[k],
                    );
                    if k < done.len() {
                        assert(d2[k] == done[k]);
                    } else {
                        lemma_cap_tag_injective(c, piece->0);
                    }
                }
            }
            if j < n {
                assert(pieces_from(s@, start as int) =~= seq![p] + pieces_from(s@, j + 1));
            } else {
                assert(pieces_from(s@, start as int) =~= seq![p]);
            }
            done = d2;
        }
        if j >= n {
            assert(comma_pieces(s@) =~= done);
            return r;
        }
        start = j + 1;
    }
}

proof fn lemma_first_comma_is(s: Seq<char>, i: int, j: int)
    requires
        0 <= i <= j <= s.len(),
        forall|m: int| i <= m < j ==> s[m] != ',',
        j == s.len() || s[j] == ',',
    ensures
        first_comma_from(s, i) == j,
    decreases j - i,
{
    if i < j {
        lemma_first_comma_is(s, i + 1, j);
    }
}

/// Shifting a text behind a prefix shifts its comma positions.
proof fn lemma_first_comma_shift(a: Seq<char>, b: Seq<char>, i: int)
    requires
        0 <= i <= b.len(),
    ensures
        first_comma_from(a + b, a.len() + i) == a.len() + first_comma_from(b, i),
    decreases b.len() - i,
{
    if i < b.len() {
        assert((a + b)[a.len() + i] == b[i]);
        if b[i] != ',' {
            lemma_first_comma_shift(a, b, i + 1);
        }
    }
}

/// Pieces behind a prefix are the pieces of the rest.
proof fn lemma_pieces_shift(a: Seq<char>, b: Seq<char>, i: int)
    requires
        0 <= i <= b.len(),
    ensures
        pieces_from(a + b, a.len() + i) == pieces_from(b, i),
    decreases b.len() - i,
{
    lemma_first_comma_shift(a, b, i);
    lemma_first_comma_bounds(b, i);
    let j = first_comma_from(b, i);
    assert((a + b).subrange(a.len() + i, a.len() + j) =~= b.subrange(i, j));
    if j < b.len() {
        lemma_pieces_shift(a, b, j + 1);
    }
}

/// Splitting comma-free texts joined by commas gives them back.
proof fn lemma_pieces_of_join(l: Seq<Seq<char>>)
    requires
        l.len() > 0,
        forall|k: int, m: int| 0 <= k < l.len() && 0 <= m < l[k].len() ==> #[trigger] l[k][m] != ',',
    ensures
        comma_pieces(comma_join(l)) == l,
    decreases l.len(),
{
    let x = l[0];
    lemma_first_comma_is(x, 0, x.len() as int);
    if l.len() == 1 {
        assert(x.subrange(0, x.len() as int) =~= x);
        assert(comma_pieces(comma_join(l)) =~= l);
    } else {
        let rest = l.drop_first();
        let a = x + seq![','];
        let s = a + comma_join(rest);
        assert(comma_join(l) == s);
        assert forall|m: int| 0 <= m < x.len() implies s[m] != ',' by {
            assert(s[m] == x[m]);
            assert(l[0][m] != ',');
        }
        assert(s[x.len() as int] == ',');
        lemma_first_comma_is(s, 0, x.len() as int);
        assert(s.subrange(0, x.len() as int) =~= x);
        lemma_pieces_shift(a, comma_join(rest), 0);
        assert(a.len() == x.len() + 1);
        assert forall|k: int, m: int| 0 <= k < rest.len() && 0 <= m < rest[k].len() implies #[trigger]
            rest[k][m] != ',' by {
            assert(rest[k] == l[k + 1]);
        }
        lemma_pieces_of_join(rest);
        assert(comma_pieces(comma_join(l)) =~= seq![x] + rest);
        assert(seq![x] + rest =~= l);
    }
}

/// The text without characters has one, empty, piece.
proof fn lemma_pieces_of_empty()
    ensures
        comma_pieces(Seq::<char>::empty()) == seq![Seq::<char>::empty()],
{
    let e = Seq::<char>::empty();
    lemma_first_comma_is(e, 0, 0);
    assert(e.subrange(0, 0) =~= e);
    assert(pieces_from(e, 0) == seq![e.subrange(0, 0)]);
}

/// Tags are non-empty and hold no comma.
proof fn lemma_tags_comma_free()
    ensures
        forall|c: MemberCapability| #[trigger] cap_tag(c).len() > 0,
        forall|c: MemberCapability, m: int| 0 <= m < cap_tag(c).len() ==> #[trigger] cap_tag(c)[m] != ',',
{
    reveal_strlit("read");
    reveal_strlit("write");
    reveal_strlit("delegate");
    reveal_strlit("admin");
    reveal_strlit("sign_rotation");
}

/// Reading back the stored text of a capability set gives the set.
pub proof fn law_caps_text_roundtrip(s: CapabilitySet)
    ensures
        forall|c: MemberCapability| pieces_name(comma_pieces(caps_text(s)), c) <==> has_cap(s, c),
{
    let l = cap_list(s);
    let t = tag_texts(l);
    lemma_cap_list_contains(s);
    lemma_tags_comma_free();
    if l.len() == 0 {
        assert(caps_text(s) =~= Seq::<char>::empty());
        lemma_pieces_of_empty();
        assert forall|c: MemberCapability| !pieces_name(comma_pieces(caps_text(s)), c) by {
            if pieces_name(comma_pieces(caps_text(s)), c) {
                let k = choose|k: int| 0 <= k < 1 && cap_tag(c) == ascii_lower_text(
                    #[trigger] comma_pieces(caps_text(s))[k],
                );
                assert(ascii_lower_text(Seq::<char>::empty()).len() == 0);
            }
        }
    } else {
        assert forall|k: int, m: int| 0 <= k < t.len() && 0 <= m < t[k].len() implies #[trigger]
            t[k][m] != ',' by {
            assert(t[k] == cap_tag(l[k]));
        }
        lemma_pieces_of_join(t);
        assert forall|c: MemberCapability| pieces_name(t, c) <==> has_cap(s, c) by {
            if pieces_name(t, c) {
                let k = choose|k: int| 0 <= k < t.len() && cap_tag(c) == ascii_lower_text(
                    #[trigger] t[k],
                );
                lemma_cap_tag_lower(l[k]);
                lemma_cap_tag_injective(c, l[k]);
            }
            if has_cap(s, c) {
                let k = choose|k: int| 0 <= k < l.len() && l[k] == c;
                lemma_cap_tag_lower(c);
                assert(t[k] == cap_tag(c));
            }
        }
    }
}

/// The columns of a stored grant. The integer columns hold the grant's
/// unsigned numbers reinterpreted as signed 64-bit integers.
pub struct GrantRow {
    pub grant_id: String,
    pub keyspace_id: String,
    pub keyspace_version: i64,
    pub subject: String,
    pub issuer: String,
    pub permissions: String,
    pub expires_at: Option<i64>,
    pub delegation_depth: i64,
    pub parent_grant: Option<String>,
    pub created_at: i64,
    pub doc_bytes: Vec<u8>,
}

/// A grant row whose named column does not decode.
#[derive(Debug, PartialEq, Eq)]
pub struct GrantRowError {
    pub field: &'static str,
}

/// The 32 bytes that a Base58 column denotes, if it denotes 32 bytes.
pub open spec fn base58_32(t: Seq<char>) -> Option<Seq<u8>> {
    match base58_bytes(t) {
        Some(b) => if b.len() == 32 {
            Some(b)
        } else {
            None
        },
        None => None,
    }
}

/// The columns hold the grant: Base58 texts of its id, keyspace, subject,
/// issuer and parent, its permission text, its numbers as signed integers,
/// and its canonical bytes.
pub open spec fn row_of(g: AccessGrant, row: GrantRow) -> bool {
    &&& row.grant_id@ == base58_text(blake3_digest(grant_bytes(g)))
    &&& row.keyspace_id@ == base58_text(g.keyspace_id@)
    &&& base58_bytes(row.keyspace_id@) == Some(g.keyspace_id@)
    &&& row.keyspace_version == g.keyspace_version as i64
    &&& row.subject@ == base58_text(g.subject@)
    &&& base58_bytes(row.subject@) == Some(g.subject@)
    &&& row.issuer@ == base58_text(g.issuer@)
    &&& base58_bytes(row.issuer@) == Some(g.issuer@)
    &&& row.permissions@ == caps_text(g.capabilities)
    &&& row.expires_at == (match g.expires_at {
        Some(t) => Some(t as i64),
        None => None,
    })
    &&& row.delegation_depth == g.delegation_depth as i64
    &&& (match g.parent_grant {
        Some(p) => row.parent_grant matches Some(t) && t@ == base58_text(p@) && base58_bytes(t@)
            == Some(p@),
        None => row.parent_grant is None,
    })
    &&& row.created_at == g.created_at as i64
    &&& row.doc_bytes@ == grant_bytes(g)
}

/// The first column, in reading order, that does not decode.
pub open spec fn row_fault(row: GrantRow) -> Option<Seq<char>> {
    if base58_32(row.keyspace_id@) is None {
        Some("keyspace_id"@)
    } else if base58_32(row.subject@) is None {
        Some("subject"@)
    } else if base58_32(row.issuer@) is None {
        Some("issuer"@)
    } else if row.parent_grant matches Some(p) && base58_32(p@) is None {
        Some("parent_grant"@)
    } else {
        None
    }
}

/// The grant holds what the (fault-free) row carries: the decoded texts,
/// the integers reinterpreted as unsigned, and no signature.
pub open spec fn grant_of_row(row: GrantRow, g: AccessGrant) -> bool {
    &&& g.version == AccessGrant::VERSION
    &&& Some(g.keyspace_id@) == base58_32(row.keyspace_id@)
    &&& g.keyspace_version == row.keyspace_version as u64
    &&& Some(g.subject@) == base58_32(row.subject@)
    &&& Some(g.issuer@) == base58_32(row.issuer@)
    &&& forall|c: MemberCapability| has_cap(g.capabilities, c) <==> pieces_name(
        comma_pieces(row.permissions@),
        c,
    )
    &&& g.expires_at == (match row.expires_at {
        Some(t) => Some(t as u64),
        None => None,
    })
    &&& g.delegation_depth == row.delegation_depth as u8
    &&& (match row.parent_grant {
        Some(t) => g.parent_grant matches Some(p) && Some(p@) == base58_32(t@),
        None => g.parent_grant is None,
    })
    &&& g.created_at == row.created_at as u64
    &&& g.signature is None
}

/// Decode a Base58 column of 32 bytes.
fn decode_32(t: &str, field: &'static str) -> (r: Result<[u8; 32], GrantRowError>)
    ensures
        match r {
            Ok(a) => base58_32(t@) == Some(a@),
            Err(e) => base58_32(t@) is None && e.field == field,
        },
{
    let bytes = match base58_decode(t) {
        Some(b) => b,
        None => return Err(GrantRowError { field }),
    };
    match vec_to_array32(bytes) {
        Some(a) => Ok(a),
        None => Err(GrantRowError { field }),
    }
}

impl GrantRow {
    /// The row that stores a grant.
    pub fn from_grant(grant: &AccessGrant) -> (r: GrantRow)
        ensures
            row_of(*grant, r),
    {
        let id = GrantId::from_grant(grant);
        let parent_grant = match &grant.parent_grant {
            Some(p) => Some(p.to_base58()),
            None => None,
        };
        let expires_at = match grant.expires_at {
            Some(t) => Some(t as i64),
            None => None,
        };
        GrantRow {
            grant_id: id.to_base58(),
            keyspace_id: base58_encode(grant.keyspace_id.as_slice()),
            keyspace_version: grant.keyspace_version as i64,
            subject: grant.subject.to_base58(),
            issuer: grant.issuer.to_base58(),
            permissions: caps_to_string(&grant.capabilities),
            expires_at,
            delegation_depth: grant.delegation_depth as i64,
            parent_grant,
            created_at: grant.created_at as i64,
            doc_bytes: grant.canonical_bytes(),
        }
    }

    /// The grant a row stores. A column that does not decode is an error
    /// naming it; no column is ever replaced by a default.
    pub fn to_grant(&self) -> (r: Result<AccessGrant, GrantRowError>)
        ensures
            match r {
                Ok(g) => row_fault(*self) is None && grant_of_row(*self, g),
                Err(e) => row_fault(*self) == Some(e.field@),
            },
    {
        let keyspace_id = match decode_32(self.keyspace_id.as_str(), "keyspace_id") {
            Ok(a) => a,
            Err(e) => return Err(e),
        };
        let subject = match PublicKeyFingerprint::from_base58(self.subject.as_str()) {
            Some(f) => f,
            None => return Err(GrantRowError { field: "subject" }),
        };
        proof {
            lemma_fingerprint_len(subject);
        }
        let issuer = match PublicKeyFingerprint::from_base58(self.issuer.as_str()) {
            Some(f) => f,
            None => return Err(GrantRowError { field: "issuer" }),
        };
        proof {
            lemma_fingerprint_len(issuer);
        }
        let parent_grant = match &self.parent_grant {
            Some(t) => match decode_32(t.as_str(), "parent_grant") {
                Ok(a) => Some(GrantId::from_bytes(a)),
                Err(e) => return Err(e),
            },
            None => None,
        };
        let expires_at = match self.expires_at {
            Some(t) => Some(t as u64),
            None => None,
        };
        Ok(
            AccessGrant {
                version: AccessGrant::VERSION,
                keyspace_id,
                keyspace_version: self.keyspace_version as u64,
                subject,
                issuer,
                capabilities: string_to_caps(self.permissions.as_str()),
                expires_at,
                delegation_depth: self.delegation_depth as u8,
                parent_grant,
                created_at: self.created_at as u64,
                signature: None,
            },
        )
    }
}

/// Two grants agree on every field but the signature.
pub open spec fn same_grant(a: AccessGrant, b: AccessGrant) -> bool {
    &&& a.version == b.version
    &&& a.keyspace_id == b.keyspace_id
    &&& a.keyspace_version == b.keyspace_version
    &&& a.subject == b.subject
    &&& a.issuer == b.issuer
    &&& a.capabilities == b.capabilities
    &&& a.expires_at == b.expires_at
    &&& a.delegation_depth == b.delegation_depth
    &&& a.parent_grant == b.parent_grant
    &&& a.created_at == b.created_at
}

/// Reading back the row of a grant gives the grant (its signature is not
/// stored).
pub proof fn law_grant_row_roundtrip(g: AccessGrant, row: GrantRow, h: AccessGrant)
    requires
        g.version == AccessGrant::VERSION,
        row_of(g, row),
        grant_of_row(row, h),
    ensures
        row_fault(row) is None,
        same_grant(g, h),
{
    lemma_fingerprint_len(g.subject);
    lemma_fingerprint_len(g.issuer);
    lemma_fingerprint_len(h.subject);
    lemma_fingerprint_len(h.issuer);
    assert(g.keyspace_id@.len() == 32);
    if let Some(p) = g.parent_grant {
        lemma_grant_id_len(p);
        lemma_grant_id_len(h.parent_grant->0);
        lemma_grant_id_ext(p, h.parent_grant->0);
    }
    lemma_fingerprint_ext(g.subject, h.subject);
    lemma_fingerprint_ext(g.issuer, h.issuer);
    lemma_array32_ext(g.keyspace_id, h.keyspace_id);
    let kv: u64 = g.keyspace_version;
    let ca: u64 = g.created_at;
    let dd: u8 = g.delegation_depth;
    assert((kv as i64) as u64 == kv) by (bit_vector);
    assert((ca as i64) as u64 == ca) by (bit_vector);
    assert((dd as i64) as u8 == dd) by (bit_vector);
    if let Some(t) = g.expires_at {
        assert((t as i64) as u64 == t) by (bit_vector);
    }
    law_caps_text_roundtrip(g.capabilities);
    assert forall|c: MemberCapability| has_cap(h.capabilities, c) <==> has_cap(g.capabilities, c) by {}
    lemma_caps_ext(g.capabilities, h.capabilities);
}

/// Sets with the same members are equal.
proof fn lemma_caps_ext(a: CapabilitySet, b: CapabilitySet)
    requires
        forall|c: MemberCapability| has_cap(a, c) <==> has_cap(b, c),
    ensures
        a == b,
{
    assert(has_cap(a, MemberCapability::Read) == has_cap(b, MemberCapability::Read));
    assert(has_cap(a, MemberCapability::Write) == has_cap(b, MemberCapability::Write));
    assert(has_cap(a, MemberCapability::Delegate) == has_cap(b, MemberCapability::Delegate));
    assert(has_cap(a, MemberCapability::Admin) == has_cap(b, MemberCapability::Admin));
    assert(has_cap(a, MemberCapability::SignRotation) == has_cap(b, MemberCapability::SignRotation));
}

/// Arrays of 32 bytes with the same bytes are equal.
proof fn lemma_array32_ext(a: [u8; 32], b: [u8; 32])
    requires
        a@ == b@,
    ensures
        a == b,
{
    broadcast use vstd::array::group_array_axioms;

    assert forall|i: int| 0 <= i < 32 implies a[i] == b[i] by {
        assert(a@[i] == b@[i]);
    }
    assert(a =~= b);
}

} // verus!
