//! Access grants: records of access delegated within a keyspace.

use vstd::prelude::*;

use crate::foreign::base58::{base58_bytes, base58_encode, base58_text};
use crate::foreign::clock::unix_now;
use crate::foreign::hash::{blake3_digest, blake3_hash};
use crate::seqs::{append_bytes, bytes_equal, le_bytes, push_le};
use crate::storage::error::AuthError;
use crate::storage::fingerprint::PublicKeyFingerprint;
use crate::storage::keyspace::{caps_bytes, has_cap, write_capabilities, CapabilitySet, MemberCapability};

verus! {

broadcast use vstd::std_specs::vec::group_vec_axioms;

/// Content-addressed identifier of an [`AccessGrant`]: the BLAKE3 hash of
/// the grant's canonical bytes.
#[derive(Clone, Copy, Debug, PartialEq, Eq, Hash)]
pub struct GrantId(pub(crate) [u8; 32]);

impl View for GrantId {
    type V = Seq<u8>;

    closed spec fn view(&self) -> Seq<u8> {
        self.0@
    }
}

/// A grant id has 32 bytes.
pub proof fn lemma_grant_id_len(g: GrantId)
    ensures
        g@.len() == 32,
{
}

/// Grant ids with the same bytes are equal.
pub proof fn lemma_grant_id_ext(a: GrantId, b: GrantId)
    requires
        a@ == b@,
    ensures
        a == b,
{
    broadcast use vstd::array::group_array_axioms;

    assert forall|i: int| 0 <= i < 32 implies a.0[i] == b.0[i] by {
        assert(a.0@[i] == b.0@[i]);
    }
    assert(a.0 =~= b.0);
}

/// A record of access granted within a keyspace.
#[derive(Clone, Debug)]
pub struct AccessGrant {
    /// Format version.
    pub version: u32,
    /// The keyspace this grant applies to.
    pub keyspace_id: [u8; 32],
    /// Version of the keyspace document when the grant was issued.
    pub keyspace_version: u64,
    /// Who has been granted access.
    pub subject: PublicKeyFingerprint,
    /// Who issued the grant.
    pub issuer: PublicKeyFingerprint,
    /// The capabilities granted.
    pub capabilities: CapabilitySet,
    /// When the grant expires (`None`: never).
    pub expires_at: Option<u64>,
    /// Delegation depth (0: not delegable).
    pub delegation_depth: u8,
    /// Parent grant, for delegation chains.
    pub parent_grant: Option<GrantId>,
    /// When the grant was created (Unix seconds).
    pub created_at: u64,
    /// Signature bytes, when signed.
    pub signature: Option<Vec<u8>>,
}

/// The domain-separation tag of grants: "IdentikeyGrant" and a format byte.
pub open spec fn grant_domain_tag() -> Seq<u8> {
    seq![73u8, 100, 101, 110, 116, 105, 107, 101, 121, 71, 114, 97, 110, 116, 1]
}

/// The encoding of the parent link: 0, or 1 and the parent id.
pub open spec fn parent_grant_bytes(p: Option<GrantId>) -> Seq<u8> {
    match p {
        Some(id) => seq![1u8] + id@,
        None => seq![0u8],
    }
}

/// The encoding of the expiry: 0, or 1 and the expiry as eight
/// little-endian bytes.
pub open spec fn expiry_bytes(e: Option<u64>) -> Seq<u8> {
    match e {
        Some(t) => seq![1u8] + le_bytes(t as nat, 8),
        None => seq![0u8],
    }
}

/// The canonical bytes of a grant, from which its id is hashed. The
/// signature is not part of them.
pub open spec fn grant_bytes(g: AccessGrant) -> Seq<u8> {
    grant_domain_tag() + le_bytes(g.version as nat, 4) + g.keyspace_id@ + le_bytes(
        g.keyspace_version as nat,
        8,
    ) + g.subject@ + g.issuer@ + caps_bytes(g.capabilities) + expiry_bytes(g.expires_at) + seq![
        g.delegation_depth,
    ] + parent_grant_bytes(g.parent_grant) + le_bytes(g.created_at as nat, 8)
}

impl GrantId {
    /// The id of a grant: the BLAKE3 hash of its canonical bytes.
    pub fn from_grant(grant: &AccessGrant) -> (r: Self)
        ensures
            r@ == blake3_digest(grant_bytes(*grant)),
    {
        let bytes = grant.canonical_bytes();
        Self(blake3_hash(bytes.as_slice()))
    }

    pub fn from_bytes(bytes: [u8; 32]) -> (r: Self)
        ensures
            r@ == bytes@,
    {
        Self(bytes)
    }

    pub fn as_bytes(&self) -> (r: &[u8; 32])
        ensures
            r@ == self@,
    {
        &self.0
    }

    pub fn to_base58(&self) -> (r: String)
        ensures
            r@ == base58_text(self@),
            base58_bytes(r@) == Some(self@),
    {
        base58_encode(self.0.as_slice())
    }
}

fn push_grant_domain_tag(out: &mut Vec<u8>)
    ensures
        final(out)@ == old(out)@ + grant_domain_tag(),
{
    let tag: Vec<u8> = vec![73u8, 100, 101, 110, 116, 105, 107, 101, 121, 71, 114, 97, 110, 116, 1];
    append_bytes(out, tag.as_slice());
    assert(tag@ =~= grant_domain_tag());
}

impl AccessGrant {
    /// Current grant format version.
    pub const VERSION: u32 = 2;

    /// A grant issued now: current format, not delegable, no parent, unsigned.
    pub fn new(
        keyspace_id: [u8; 32],
        keyspace_version: u64,
        subject: PublicKeyFingerprint,
        issuer: PublicKeyFingerprint,
        capabilities: CapabilitySet,
        expires_at: Option<u64>,
    ) -> (r: Self)
        ensures
            r.version == Self::VERSION,
            r.keyspace_id == keyspace_id,
            r.keyspace_version == keyspace_version,
            r.subject == subject,
            r.issuer == issuer,
            r.capabilities == capabilities,
            r.expires_at == expires_at,
            r.delegation_depth == 0,
            r.parent_grant is None,
            r.signature is None,
    {
        Self {
            version: Self::VERSION,
            keyspace_id,
            keyspace_version,
            subject,
            issuer,
            capabilities,
            expires_at,
            delegation_depth: 0,
            parent_grant: None,
            created_at: unix_now(),
            signature: None,
        }
    }

    /// Whether the grant has expired at time `now` (Unix seconds): it has an
    /// expiry and `now` is past it.
    pub fn is_expired_at(&self, now: u64) -> (r: bool)
        ensures
            r == (self.expires_at matches Some(t) && now > t),
    {
        match self.expires_at {
            Some(t) => now > t,
            None => false,
        }
    }

    /// Whether the grant has expired at the current time. A grant without an
    /// expiry never expires.
    pub fn is_expired(&self) -> (r: bool)
        ensures
            self.expires_at is None ==> !r,
    {
        match self.expires_at {
            None => false,
            Some(_) => self.is_expired_at(unix_now()),
        }
    }

    /// Whether a capability is granted.
    pub fn permits(&self, cap: MemberCapability) -> (r: bool)
        ensures
            r == has_cap(self.capabilities, cap),
    {
        self.capabilities.contains(cap)
    }

    /// Canonical byte encoding used for content addressing: a domain tag,
    /// then every field fixed-width, counted or tagged, so that distinct
    /// field contents never give the same bytes.
    pub(crate) fn canonical_bytes(&self) -> (r: Vec<u8>)
        ensures
            r@ == grant_bytes(*self),
    {
        let mut out: Vec<u8> = Vec::new();
        push_grant_domain_tag(&mut out);
        push_le(&mut out, self.version as u64, 4);
        append_bytes(&mut out, self.keyspace_id.as_slice());
        push_le(&mut out, self.keyspace_version, 8);
        append_bytes(&mut out, self.subject.as_bytes().as_slice());
        append_bytes(&mut out, self.issuer.as_bytes().as_slice());
        write_capabilities(&mut out, &self.capabilities);
        match self.expires_at {
            Some(t) => {
                out.push(1);
                push_le(&mut out, t, 8);
            },
            None => out.push(0),
        }
        out.push(self.delegation_depth);
        match &self.parent_grant {
            Some(parent) => {
                out.push(1);
                append_bytes(&mut out, parent.as_bytes().as_slice());
            },
            None => out.push(0),
        }
        push_le(&mut out, self.created_at, 8);
        assert(out@ =~= grant_bytes(*self));
        out
    }
}

// ---------------------------------------------------------------------------
// In-memory grant store
// ---------------------------------------------------------------------------

/// The grants of a store, in the order they were issued, each with its id.
pub type GrantTable = Seq<(Seq<u8>, AccessGrant)>;

/// The position of the grant with id `id`, if any.
pub open spec fn grant_index(t: GrantTable, id: Seq<u8>) -> Option<int> {
    if exists|i: int| 0 <= i < t.len() && t[i].0 == id {
        Some(choose|i: int| 0 <= i < t.len() && t[i].0 == id)
    } else {
        None
    }
}

/// No two grants of the table share an id, and each id is its grant's hash.
pub open spec fn grants_well_formed(t: GrantTable) -> bool {
    &&& forall|i: int, j: int| 0 <= i < j < t.len() ==> #[trigger] t[i].0 != #[trigger] t[j].0
    &&& forall|i: int| 0 <= i < t.len() ==> #[trigger] t[i].0 == blake3_digest(grant_bytes(t[i].1))
}

/// The grants whose subject has the given fingerprint bytes, in order.
pub open spec fn grants_for_subject(t: GrantTable, subject: Seq<u8>) -> Seq<AccessGrant>
    decreases t.len(),
{
    if t.len() == 0 {
        Seq::empty()
    } else if t.last().1.subject@ == subject {
        grants_for_subject(t.drop_last(), subject).push(t.last().1)
    } else {
        grants_for_subject(t.drop_last(), subject)
    }
}

/// The grants for the given keyspace, in order.
pub open spec fn grants_for_keyspace(t: GrantTable, keyspace_id: Seq<u8>) -> Seq<AccessGrant>
    decreases t.len(),
{
    if t.len() == 0 {
        Seq::empty()
    } else if t.last().1.keyspace_id@ == keyspace_id {
        grants_for_keyspace(t.drop_last(), keyspace_id).push(t.last().1)
    } else {
        grants_for_keyspace(t.drop_last(), keyspace_id)
    }
}

/// In-memory grant store, keyed by grant id.
pub struct InMemoryGrantStore {
    grants: Vec<(GrantId, AccessGrant)>,
}

impl View for InMemoryGrantStore {
    type V = GrantTable;

    closed spec fn view(&self) -> GrantTable {
        Seq::new(self.grants@.len(), |i: int| (self.grants@[i].0@, self.grants@[i].1))
    }
}

impl InMemoryGrantStore {
    #[verifier::type_invariant]
    spec fn well_formed(self) -> bool {
        grants_well_formed(self@)
    }

    pub fn new() -> (r: Self)
        ensures
            r@ == Seq::<(Seq<u8>, AccessGrant)>::empty(),
            grants_well_formed(r@),
    {
        let r = Self { grants: Vec::new() };
        assert(r@ =~= Seq::<(Seq<u8>, AccessGrant)>::empty());
        r
    }

    /// The position of the grant with this id.
    fn find(&self, id: &GrantId) -> (r: Option<usize>)
        ensures
            match r {
                Some(i) => i < self@.len() && self@[i as int].0 == id@,
                None => forall|i: int| 0 <= i < self@.len() ==> #[trigger] self@[i].0 != id@,
            },
    {
        let mut i: usize = 0;
        while i < self.grants.len()
            invariant
                i <= self.grants@.len(),
                forall|j: int| 0 <= j < i ==> #[trigger] self@[j].0 != id@,
            decreases self.grants.len() - i,
        {
            if bytes_equal(self.grants[i].0.as_bytes().as_slice(), id.as_bytes().as_slice()) {
                return Some(i);
            }
            i = i + 1;
        }
        None
    }

    /// Store a new grant and return its id. Fails when a grant with the same
    /// id is already stored.
    pub fn issue(&mut self, grant: AccessGrant) -> (r: Result<GrantId, AuthError>)
        ensures
            match r {
                Ok(id) => {
                    &&& id@ == blake3_digest(grant_bytes(grant))
                    &&& grant_index(old(self)@, id@) is None
                    &&& final(self)@ == old(self)@.push((id@, grant))
                    &&& grants_well_formed(final(self)@)
                },
                Err(e) => {
                    &&& e is AlreadyExists
                    &&& grant_index(old(self)@, blake3_digest(grant_bytes(grant))) is Some
                    &&& final(self)@ == old(self)@
                },
            },
    {
        proof {
            use_type_invariant(&*self);
        }
        let id = GrantId::from_grant(&grant);
        if self.find(&id).is_some() {
            return Err(AuthError::AlreadyExists("grant already issued".to_owned()));
        }
        let ghost before = self@;
        let mut held = InMemoryGrantStore { grants: Vec::new() };
        proof {
            assert(held@ =~= Seq::<(Seq<u8>, AccessGrant)>::empty());
        }
        std::mem::swap(self, &mut held);
        proof {
            use_type_invariant(&held);
        }
        let InMemoryGrantStore { mut grants } = held;
        grants.push((id, grant));
        let ghost t = Seq::new(grants@.len(), |i: int| (grants@[i].0@, grants@[i].1));
        assert(t =~= before.push((id@, grant)));
        assert(grants_well_formed(t));
        let next = InMemoryGrantStore { grants };
        assert(next@ =~= before.push((id@, grant)));
        *self = next;
        Ok(id)
    }

    /// The grant with this id.
    pub fn get(&self, id: &GrantId) -> (r: Option<&AccessGrant>)
        ensures
            match r {
                Some(g) => grant_index(self@, id@) matches Some(i) && *g == self@[i].1,
                None => grant_index(self@, id@) is None,
            },
    {
        proof {
            use_type_invariant(self);
        }
        match self.find(id) {
            Some(i) => Some(&self.grants[i].1),
            None => None,
        }
    }

    /// Remove the grant with this id. Removing an absent id changes nothing.
    pub fn revoke(&mut self, id: &GrantId)
        ensures
            match grant_index(old(self)@, id@) {
                Some(i) => final(self)@ == old(self)@.remove(i),
                None => final(self)@ == old(self)@,
            },
            grants_well_formed(final(self)@),
    {
        proof {
            use_type_invariant(&*self);
        }
        if let Some(i) = self.find(id) {
            proof {
                let k = choose|k: int| 0 <= k < self@.len() && self@[k].0 == id@;
                if k != i {
                    assert(self@[k].0 != self@[i as int].0);
                }
            }
            let ghost before = self@;
            let mut held = InMemoryGrantStore { grants: Vec::new() };
            proof {
                assert(held@ =~= Seq::<(Seq<u8>, AccessGrant)>::empty());
            }
            std::mem::swap(self, &mut held);
            proof {
                use_type_invariant(&held);
            }
            let InMemoryGrantStore { mut grants } = held;
            grants.remove(i);
            let ghost t = Seq::new(grants@.len(), |k: int| (grants@[k].0@, grants@[k].1));
            assert(t =~= before.remove(i as int));
            assert forall|a: int, b: int| 0 <= a < b < t.len() implies #[trigger] t[a].0
                != #[trigger] t[b].0 by {
                let a2 = if a < i { a } else { a + 1 };
                let b2 = if b < i { b } else { b + 1 };
                assert(t[a] == before[a2] && t[b] == before[b2]);
            }
            assert forall|a: int| 0 <= a < t.len() implies #[trigger] t[a].0 == blake3_digest(
                grant_bytes(t[a].1),
            ) by {
                let a2 = if a < i { a } else { a + 1 };
                assert(t[a] == before[a2]);
            }
            let next = InMemoryGrantStore { grants };
            assert(next@ =~= before.remove(i as int));
            *self = next;
        }
        proof {
            use_type_invariant(&*self);
        }
    }

    /// The grants whose grantee is `subject`, in issue order.
    pub fn list_by_subject(&self, subject: &PublicKeyFingerprint) -> (r: Vec<&AccessGrant>)
        ensures
            r@.len() == grants_for_subject(self@, subject@).len(),
            forall|i: int| 0 <= i < r@.len() ==> *r@[i] == grants_for_subject(self@, subject@)[i],
            forall|i: int| 0 <= i < r@.len() ==> (*#[trigger] r@[i]).subject@ == subject@,
            forall|j: int|
                0 <= j < self@.len() && (#[trigger] self@[j]).1.subject@ == subject@ ==> exists|i: int|
                    0 <= i < r@.len() && *r@[i] == self@[j].1,
    {
        let mut out: Vec<&AccessGrant> = Vec::new();
        let mut i: usize = 0;
        while i < self.grants.len()
            invariant
                i <= self@.len(),
                out@.len() == grants_for_subject(self@.take(i as int), subject@).len(),
                forall|j: int|
                    0 <= j < out@.len() ==> *out@[j] == grants_for_subject(
                        self@.take(i as int),
                        subject@,
                    )[j],
            decreases self.grants.len() - i,
        {
            assert(self@.take(i + 1).drop_last() =~= self@.take(i as int));
            if bytes_equal(
                self.grants[i].1.subject.as_bytes().as_slice(),
                subject.as_bytes().as_slice(),
            ) {
                out.push(&self.grants[i].1);
            }
            i = i + 1;
        }
        assert(self@.take(self@.len() as int) =~= self@);
        proof {
            law_grants_for_subject(self@, subject@);
            assert forall|j: int|
                0 <= j < self@.len() && (#[trigger] self@[j]).1.subject@ == subject@ implies exists|i: int|
                0 <= i < out@.len() && *out@[i] == self@[j].1 by {
                let k = choose|k: int| 0 <= k < grants_for_subject(self@, subject@).len() && grants_for_subject(self@, subject@)[k] == self@[j].1;
                assert(*out@[k] == self@[j].1);
            }
        }
        out
    }

    /// The grants for the keyspace, in issue order.
    pub fn list_by_keyspace(&self, keyspace_id: &[u8; 32]) -> (r: Vec<&AccessGrant>)
        ensures
            r@.len() == grants_for_keyspace(self@, keyspace_id@).len(),
            forall|i: int|
                0 <= i < r@.len() ==> *r@[i] == grants_for_keyspace(self@, keyspace_id@)[i],
            forall|i: int| 0 <= i < r@.len() ==> (*#[trigger] r@[i]).keyspace_id@ == keyspace_id@,
            forall|j: int|
                0 <= j < self@.len() && (#[trigger] self@[j]).1.keyspace_id@ == keyspace_id@ ==> exists|i: int|
                    0 <= i < r@.len() && *r@[i] == self@[j].1,
    {
        let mut out: Vec<&AccessGrant> = Vec::new();
        let mut i: usize = 0;
        while i < self.grants.len()
            invariant
                i <= self@.len(),
                out@.len() == grants_for_keyspace(self@.take(i as int), keyspace_id@).len(),
                forall|j: int|
                    0 <= j < out@.len() ==> *out@[j] == grants_for_keyspace(
                        self@.take(i as int),
                        keyspace_id@,
                    )[j],
            decreases self.grants.len() - i,
        {
            assert(self@.take(i + 1).drop_last() =~= self@.take(i as int));
            if bytes_equal(self.grants[i].1.keyspace_id.as_slice(), keyspace_id.as_slice()) {
                out.push(&self.grants[i].1);
            }
            i = i + 1;
        }
        assert(self@.take(self@.len() as int) =~= self@);
        proof {
            law_grants_for_keyspace(self@, keyspace_id@);
            assert forall|j: int|
                0 <= j < self@.len() && (#[trigger] self@[j]).1.keyspace_id@ == keyspace_id@ implies exists|i: int|
                0 <= i < out@.len() && *out@[i] == self@[j].1 by {
                let k = choose|k: int| 0 <= k < grants_for_keyspace(self@, keyspace_id@).len() && grants_for_keyspace(self@, keyspace_id@)[k] == self@[j].1;
                assert(*out@[k] == self@[j].1);
            }
        }
        out
    }
}

/// A grant just issued is found under its id.
pub proof fn law_issue_then_get(t: GrantTable, id: Seq<u8>, g: AccessGrant)
    requires
        grant_index(t, id) is None,
    ensures
        grant_index(t.push((id, g)), id) == Some(t.len() as int),
        t.push((id, g))[t.len() as int].1 == g,
{
    let t2 = t.push((id, g));
    assert(t2[t.len() as int].0 == id);
    let k = choose|k: int| 0 <= k < t2.len() && t2[k].0 == id;
    if k < t.len() {
        assert(t2[k] == t[k]);
    }
}

/// A revoked grant is no longer found.
pub proof fn law_revoke_then_absent(t: GrantTable, i: int)
    requires
        grants_well_formed(t),
        0 <= i < t.len(),
    ensures
        grant_index(t.remove(i), t[i].0) is None,
{
    let t2 = t.remove(i);
    assert forall|k: int| 0 <= k < t2.len() implies t2[k].0 != t[i].0 by {
        if k < i {
            assert(t2[k] == t[k]);
        } else {
            assert(t2[k] == t[k + 1]);
        }
    }
}

/// Listing by subject keeps exactly the grants whose grantee has the given
/// fingerprint, in issue order: it is the stored grants filtered on their
/// `subject` field, whatever their issuer.
pub proof fn law_grants_for_subject(t: GrantTable, subject: Seq<u8>)
    ensures
        grants_for_subject(t, subject) == t.map_values(|e: (Seq<u8>, AccessGrant)| e.1).filter(
            |g: AccessGrant| g.subject@ == subject,
        ),
        forall|i: int|
            0 <= i < grants_for_subject(t, subject).len() ==> (#[trigger] grants_for_subject(
                t,
                subject,
            )[i]).subject@ == subject,
        forall|j: int|
            0 <= j < t.len() && (#[trigger] t[j]).1.subject@ == subject ==> grants_for_subject(
                t,
                subject,
            ).contains(t[j].1),
    decreases t.len(),
{
    reveal(Seq::filter);
    let f = |e: (Seq<u8>, AccessGrant)| e.1;
    let p = |g: AccessGrant| g.subject@ == subject;
    let ms = t.map_values(f);
    if t.len() > 0 {
        law_grants_for_subject(t.drop_last(), subject);
        assert(ms.drop_last() =~= t.drop_last().map_values(f));
    }
    broadcast use vstd::seq_lib::group_filter_ensures;
    assert forall|j: int| 0 <= j < t.len() && (#[trigger] t[j]).1.subject@ == subject implies grants_for_subject(
        t,
        subject,
    ).contains(t[j].1) by {
        assert(ms[j] == t[j].1);
        assert(p(ms[j]));
    }
}

/// Listing by keyspace keeps exactly the grants for the given keyspace, in
/// issue order: it is the stored grants filtered on their `keyspace_id` field.
pub proof fn law_grants_for_keyspace(t: GrantTable, keyspace_id: Seq<u8>)
    ensures
        grants_for_keyspace(t, keyspace_id) == t.map_values(|e: (Seq<u8>, AccessGrant)| e.1).filter(
            |g: AccessGrant| g.keyspace_id@ == keyspace_id,
        ),
        forall|i: int|
            0 <= i < grants_for_keyspace(t, keyspace_id).len() ==> (#[trigger] grants_for_keyspace(
                t,
                keyspace_id,
            )[i]).keyspace_id@ == keyspace_id,
        forall|j: int|
            0 <= j < t.len() && (#[trigger] t[j]).1.keyspace_id@ == keyspace_id
                ==> grants_for_keyspace(t, keyspace_id).contains(t[j].1),
    decreases t.len(),
{
    reveal(Seq::filter);
    let f = |e: (Seq<u8>, AccessGrant)| e.1;
    let p = |g: AccessGrant| g.keyspace_id@ == keyspace_id;
    let ms = t.map_values(f);
    if t.len() > 0 {
        law_grants_for_keyspace(t.drop_last(), keyspace_id);
        assert(ms.drop_last() =~= t.drop_last().map_values(f));
    }
    broadcast use vstd::seq_lib::group_filter_ensures;
    assert forall|j: int|
        0 <= j < t.len() && (#[trigger] t[j]).1.keyspace_id@ == keyspace_id implies grants_for_keyspace(
        t,
        keyspace_id,
    ).contains(t[j].1) by {
        assert(ms[j] == t[j].1);
        assert(p(ms[j]));
    }
}

} // verus!
