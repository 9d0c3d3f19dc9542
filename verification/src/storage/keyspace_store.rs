//! Versioned storage of keyspace documents, with version-chain validation.

use vstd::prelude::*;

use crate::foreign::hash::blake3_digest;
use crate::seqs::bytes_equal;
use crate::storage::error::AuthError;
use crate::storage::fingerprint::PublicKeyFingerprint;
use crate::storage::keyspace::{doc_bytes, KeyspaceDoc, KeyspaceDocHash, KeyspaceId};

verus! {

broadcast use vstd::std_specs::vec::group_vec_axioms;

/// The hash a document is stored under.
pub open spec fn doc_hash_of(d: KeyspaceDoc) -> Seq<u8> {
    blake3_digest(doc_bytes(d))
}

/// How a candidate document fails to extend a keyspace's history.
pub enum ChainFault {
    /// A second version 0.
    DuplicateRoot,
    /// Any other break of the chain.
    Broken,
}

/// Why `doc` cannot follow the stored version hashes (`None`: the keyspace
/// has no history), or `None` when it can: version 0 must have no parent
/// and start a new keyspace; version n > 0 must follow exactly n stored
/// versions and name the last one as its parent.
pub open spec fn chain_fault(existing: Option<Seq<Seq<u8>>>, doc: KeyspaceDoc) -> Option<
    ChainFault,
> {
    if doc.version == 0 {
        if doc.parent is Some {
            Some(ChainFault::Broken)
        } else if existing matches Some(v) && v.len() > 0 {
            Some(ChainFault::DuplicateRoot)
        } else {
            None
        }
    } else {
        match existing {
            None => Some(ChainFault::Broken),
            Some(v) => if doc.version != v.len() || v.len() == 0 {
                Some(ChainFault::Broken)
            } else {
                match doc.parent {
                    Some(p) => if p@ == v.last() {
                        None
                    } else {
                        Some(ChainFault::Broken)
                    },
                    None => Some(ChainFault::Broken),
                }
            },
        }
    }
}

/// The error reported for a chain fault.
pub open spec fn chain_error_matches(e: AuthError, f: ChainFault) -> bool {
    match f {
        ChainFault::DuplicateRoot => e is AlreadyExists,
        ChainFault::Broken => e is Storage,
    }
}

/// Validate a candidate document against the hashes of the stored versions
/// of its keyspace. Every store calls this before persisting a document.
pub fn validate_chain(existing_versions: Option<&[KeyspaceDocHash]>, doc: &KeyspaceDoc) -> (r:
    Result<(), AuthError>)
    ensures
        match r {
            Ok(()) => chain_fault(
                match existing_versions {
                    Some(v) => Some(v@.map_values(|h: KeyspaceDocHash| h@)),
                    None => None,
                },
                *doc,
            ) is None,
            Err(e) => chain_fault(
                match existing_versions {
                    Some(v) => Some(v@.map_values(|h: KeyspaceDocHash| h@)),
                    None => None,
                },
                *doc,
            ) matches Some(f) && chain_error_matches(e, f),
        },
{
    if doc.version == 0 {
        if doc.parent.is_some() {
            return Err(AuthError::Storage("v0 document must not have a parent".to_owned()));
        }
        if let Some(v) = existing_versions {
            if v.len() > 0 {
                return Err(AuthError::AlreadyExists("keyspace v0 already exists".to_owned()));
            }
        }
        return Ok(());
    }
    let versions = match existing_versions {
        Some(v) => v,
        None => {
            return Err(AuthError::Storage("broken chain: keyspace has no v0".to_owned()));
        },
    };
    if doc.version != versions.len() as u64 || versions.len() == 0 {
        return Err(AuthError::Storage("broken chain: unexpected version".to_owned()));
    }
    let prev = &versions[versions.len() - 1];
    match &doc.parent {
        None => Err(AuthError::Storage("broken chain: missing parent".to_owned())),
        Some(p) => {
            if bytes_equal(p.as_bytes().as_slice(), prev.as_bytes().as_slice()) {
                Ok(())
            } else {
                Err(AuthError::Storage("broken chain: parent mismatch".to_owned()))
            }
        },
    }
}

// ---------------------------------------------------------------------------
// In-memory store
// ---------------------------------------------------------------------------

/// The history of one keyspace: its id, its documents in version order and
/// the hash of each.
pub struct History {
    id: KeyspaceId,
    docs: Vec<KeyspaceDoc>,
    hashes: Vec<KeyspaceDocHash>,
}

/// The model of a store: each keyspace's id and documents, in the order the
/// keyspaces were created.
pub type HistoryTable = Seq<(Seq<u8>, Seq<KeyspaceDoc>)>;

/// A keyspace's documents form a valid chain: version j at position j, the
/// first without parent, each later one naming its predecessor's hash.
pub open spec fn chain_valid(id: Seq<u8>, docs: Seq<KeyspaceDoc>) -> bool {
    &&& docs.len() > 0
    &&& forall|j: int| 0 <= j < docs.len() ==> (#[trigger] docs[j]).version == j && docs[j].id@ == id
    &&& docs[0].parent is None
    &&& forall|j: int|
        0 < j < docs.len() ==> ((#[trigger] docs[j]).parent matches Some(p) && p@ == doc_hash_of(
            docs[j - 1],
        ))
}

/// Every stored history is a valid chain and no keyspace has two.
pub open spec fn table_valid(t: HistoryTable) -> bool {
    &&& forall|i: int| 0 <= i < t.len() ==> chain_valid(#[trigger] t[i].0, t[i].1)
    &&& forall|i: int, j: int| 0 <= i < j < t.len() ==> #[trigger] t[i].0 != #[trigger] t[j].0
}

/// The position of the keyspace's history, if any.
pub open spec fn history_index(t: HistoryTable, id: Seq<u8>) -> Option<int> {
    if exists|i: int| 0 <= i < t.len() && t[i].0 == id {
        Some(choose|i: int| 0 <= i < t.len() && t[i].0 == id)
    } else {
        None
    }
}

/// The hashes of the stored versions of a keyspace, if it has any.
pub open spec fn version_hashes(t: HistoryTable, id: Seq<u8>) -> Option<Seq<Seq<u8>>> {
    match history_index(t, id) {
        Some(i) => Some(t[i].1.map_values(|d: KeyspaceDoc| doc_hash_of(d))),
        None => None,
    }
}

/// The table after storing `doc`: appended to its keyspace's history, or a
/// new history at the end.
pub open spec fn table_after_put(t: HistoryTable, doc: KeyspaceDoc) -> HistoryTable {
    match history_index(t, doc.id@) {
        Some(i) => t.update(i, (t[i].0, t[i].1.push(doc))),
        None => t.push((doc.id@, seq![doc])),
    }
}

/// Whether a document lists a member with this fingerprint.
pub open spec fn has_member(d: KeyspaceDoc, fp: Seq<u8>) -> bool {
    exists|k: int| 0 <= k < d.members@.len() && (#[trigger] d.members@[k]).fingerprint@ == fp
}

/// The keyspaces whose latest document lists the fingerprint, in creation
/// order.
pub open spec fn keyspaces_with_member(t: HistoryTable, fp: Seq<u8>) -> Seq<Seq<u8>>
    decreases t.len(),
{
    if t.len() == 0 {
        Seq::empty()
    } else if has_member(t.last().1.last(), fp) {
        keyspaces_with_member(t.drop_last(), fp).push(t.last().0)
    } else {
        keyspaces_with_member(t.drop_last(), fp)
    }
}

/// In-memory keyspace store.
pub struct InMemoryKeyspaceStore {
    histories: Vec<History>,
}

impl View for InMemoryKeyspaceStore {
    type V = HistoryTable;

    closed spec fn view(&self) -> HistoryTable {
        Seq::new(
            self.histories@.len(),
            |i: int| (self.histories@[i].id@, self.histories@[i].docs@),
        )
    }
}

impl InMemoryKeyspaceStore {
    #[verifier::type_invariant]
    spec fn well_formed(self) -> bool {
        &&& table_valid(self@)
        &&& forall|i: int|
            0 <= i < self.histories@.len() ==> (#[trigger] self.histories@[i]).hashes@.len()
                == self.histories@[i].docs@.len() && forall|j: int|
                0 <= j < self.histories@[i].docs@.len() ==> (#[trigger] self.histories@[i].hashes@[j])@
                    == doc_hash_of(self.histories@[i].docs@[j])
    }

    pub fn new() -> (r: Self)
        ensures
            r@ == Seq::<(Seq<u8>, Seq<KeyspaceDoc>)>::empty(),
            table_valid(r@),
    {
        let r = Self { histories: Vec::new() };
        assert(r@ =~= Seq::<(Seq<u8>, Seq<KeyspaceDoc>)>::empty());
        r
    }

    /// The position of the keyspace's history.
    fn find(&self, id: &KeyspaceId) -> (r: Option<usize>)
        ensures
            match r {
                Some(i) => i < self@.len() && self@[i as int].0 == id@ && history_index(self@, id@)
                    == Some(i as int),
                None => history_index(self@, id@) is None,
            },
    {
        proof {
            use_type_invariant(self);
        }
        let mut i: usize = 0;
        while i < self.histories.len()
            invariant
                i <= self.histories@.len(),
                table_valid(self@),
                forall|j: int| 0 <= j < i ==> #[trigger] self@[j].0 != id@,
            decreases self.histories.len() - i,
        {
            if bytes_equal(
                self.histories[i].id.as_bytes().as_slice(),
                id.as_bytes().as_slice(),
            ) {
                assert(self@[i as int].0 == id@);
                proof {
                    let k = choose|k: int| 0 <= k < self@.len() && self@[k].0 == id@;
                    if k != i {
                        assert(self@[k].0 != self@[i as int].0);
                    }
                }
                return Some(i);
            }
            i = i + 1;
        }
        None
    }

    /// Store a new version of a keyspace, after checking that it extends the
    /// keyspace's chain; returns its hash.
    pub fn put(&mut self, doc: KeyspaceDoc) -> (r: Result<KeyspaceDocHash, AuthError>)
        ensures
            match r {
                Ok(h) => {
                    &&& chain_fault(version_hashes(old(self)@, doc.id@), doc) is None
                    &&& h@ == doc_hash_of(doc)
                    &&& final(self)@ == table_after_put(old(self)@, doc)
                    &&& table_valid(final(self)@)
                },
                Err(e) => {
                    &&& chain_fault(version_hashes(old(self)@, doc.id@), doc) matches Some(f)
                        && chain_error_matches(e, f)
                    &&& final(self)@ == old(self)@
                    &&& table_valid(final(self)@)
                },
            },
    {
        proof {
            use_type_invariant(&*self);
        }
        let found = self.find(&doc.id);
        match found {
            Some(i) => {
                proof {
                    assert(self.histories@[i as int].hashes@.map_values(
                        |h: KeyspaceDocHash| h@,
                    ) =~= self@[i as int].1.map_values(|d: KeyspaceDoc| doc_hash_of(d)));
                }
                validate_chain(Some(self.histories[i].hashes.as_slice()), &doc)?;
            },
            None => {
                validate_chain(None, &doc)?;
            },
        }
        let hash = doc.doc_hash();
        let ghost before = self@;
        let mut held = InMemoryKeyspaceStore { histories: Vec::new() };
        proof {
            assert(held@ =~= Seq::<(Seq<u8>, Seq<KeyspaceDoc>)>::empty());
        }
        std::mem::swap(self, &mut held);
        proof {
            use_type_invariant(&held);
        }
        let InMemoryKeyspaceStore { mut histories } = held;
        let ghost hist_before = histories@;
        match found {
            Some(i) => {
                let mut h = histories.remove(i);
                h.docs.push(doc);
                h.hashes.push(hash);
                histories.insert(i, h);
            },
            None => {
                let mut docs: Vec<KeyspaceDoc> = Vec::new();
                docs.push(doc);
                let mut hashes: Vec<KeyspaceDocHash> = Vec::new();
                hashes.push(hash);
                histories.push(History { id: doc_id_of(&docs), docs, hashes });
            },
        }
        let ghost t = Seq::new(histories@.len(), |k: int| (histories@[k].id@, histories@[k].docs@));
        proof {
            lemma_put_valid(before, hist_before, histories@, t, doc, found);
        }
        let next = InMemoryKeyspaceStore { histories };
        *self = next;
        Ok(hash)
    }

    /// The latest version of a keyspace.
    pub fn get_latest(&self, id: &KeyspaceId) -> (r: Option<&KeyspaceDoc>)
        ensures
            match r {
                Some(d) => history_index(self@, id@) matches Some(i) && *d == self@[i].1.last(),
                None => history_index(self@, id@) is None,
            },
    {
        proof {
            use_type_invariant(self);
        }
        match self.find(id) {
            Some(i) => {
                let docs = &self.histories[i].docs;
                Some(&docs[docs.len() - 1])
            },
            None => None,
        }
    }

    /// A stored document with this hash.
    pub fn get_by_hash(&self, hash: &KeyspaceDocHash) -> (r: Option<&KeyspaceDoc>)
        ensures
            match r {
                Some(d) => doc_hash_of(*d) == hash@ && exists|i: int, j: int|
                    0 <= i < self@.len() && 0 <= j < self@[i].1.len() && self@[i].1[j] == *d,
                None => forall|i: int, j: int|
                    0 <= i < self@.len() && 0 <= j < self@[i].1.len() ==> doc_hash_of(
                        #[trigger] self@[i].1[j],
                    ) != hash@,
            },
    {
        proof {
            use_type_invariant(self);
        }
        let mut i: usize = 0;
        while i < self.histories.len()
            invariant
                i <= self.histories@.len(),
                forall|a: int, b: int|
                    0 <= a < i && 0 <= b < self@[a].1.len() ==> doc_hash_of(
                        #[trigger] self@[a].1[b],
                    ) != hash@,
            decreases self.histories.len() - i,
        {
            proof {
                use_type_invariant(self);
            }
            let hist = &self.histories[i];
            assert(hist.hashes@.len() == hist.docs@.len());
            let mut j: usize = 0;
            while j < hist.hashes.len()
                invariant
                    i < self.histories@.len(),
                    *hist == self.histories@[i as int],
                    j <= hist.hashes@.len(),
                    hist.hashes@.len() == hist.docs@.len(),
                    forall|b: int|
                        0 <= b < hist.docs@.len() ==> (#[trigger] hist.hashes@[b])@ == doc_hash_of(
                            hist.docs@[b],
                        ),
                    forall|b: int| 0 <= b < j ==> doc_hash_of(#[trigger] hist.docs@[b]) != hash@,
                decreases hist.hashes.len() - j,
            {
                if bytes_equal(hist.hashes[j].as_bytes().as_slice(), hash.as_bytes().as_slice()) {
                    assert(self@[i as int].1[j as int] == hist.docs@[j as int]);
                    return Some(&hist.docs[j]);
                }
                j = j + 1;
            }
            assert forall|b: int| 0 <= b < self@[i as int].1.len() implies doc_hash_of(
                #[trigger] self@[i as int].1[b],
            ) != hash@ by {
                assert(self@[i as int].1[b] == hist.docs@[b]);
            }
            i = i + 1;
        }
        None
    }

    /// The hashes of all versions of a keyspace, in version order (empty for
    /// an unknown keyspace).
    pub fn list_versions(&self, id: &KeyspaceId) -> (r: Vec<KeyspaceDocHash>)
        ensures
            match version_hashes(self@, id@) {
                Some(v) => r@.map_values(|h: KeyspaceDocHash| h@) == v,
                None => r@.len() == 0,
            },
    {
        proof {
            use_type_invariant(self);
        }
        match self.find(id) {
            Some(i) => {
                let hashes = &self.histories[i].hashes;
                let mut out: Vec<KeyspaceDocHash> = Vec::new();
                let mut j: usize = 0;
                while j < hashes.len()
                    invariant
                        j <= hashes@.len(),
                        out@.len() == j,
                        forall|b: int| 0 <= b < j ==> #[trigger] out@[b] == hashes@[b],
                    decreases hashes.len() - j,
                {
                    out.push(hashes[j]);
                    j = j + 1;
                }
                assert(out@.map_values(|h: KeyspaceDocHash| h@) =~= self@[i as int].1.map_values(
                    |d: KeyspaceDoc| doc_hash_of(d),
                ));
                out
            },
            None => Vec::new(),
        }
    }

    /// The keyspaces whose latest version lists the fingerprint as a member,
    /// in creation order.
    pub fn list_by_member(&self, fp: &PublicKeyFingerprint) -> (r: Vec<KeyspaceId>)
        ensures
            r@.map_values(|id: KeyspaceId| id@) == keyspaces_with_member(self@, fp@),
    {
        proof {
            use_type_invariant(self);
        }
        let mut out: Vec<KeyspaceId> = Vec::new();
        let mut i: usize = 0;
        while i < self.histories.len()
            invariant
                i <= self@.len(),
                table_valid(self@),
                out@.map_values(|id: KeyspaceId| id@) == keyspaces_with_member(
                    self@.take(i as int),
                    fp@,
                ),
            decreases self.histories.len() - i,
        {
            assert(self@.take(i + 1).drop_last() =~= self@.take(i as int));
            let docs = &self.histories[i].docs;
            assert(docs@ == self@[i as int].1);
            assert(chain_valid(self@[i as int].0, self@[i as int].1));
            let latest = &docs[docs.len() - 1];
            if lists_member(latest, fp) {
                let ghost before = out@;
                out.push(self.histories[i].id);
                assert(out@.map_values(|id: KeyspaceId| id@) =~= before.map_values(
                    |id: KeyspaceId| id@,
                ).push(self@[i as int].0));
            }
            i = i + 1;
        }
        assert(self@.take(self@.len() as int) =~= self@);
        out
    }
}

/// The id of the first document (used when starting a history).
fn doc_id_of(docs: &Vec<KeyspaceDoc>) -> (r: KeyspaceId)
    requires
        docs@.len() > 0,
    ensures
        r == docs@[0].id,
{
    docs[0].id
}

/// Whether the document lists a member with this fingerprint.
fn lists_member(d: &KeyspaceDoc, fp: &PublicKeyFingerprint) -> (r: bool)
    ensures
        r == has_member(*d, fp@),
{
    let mut k: usize = 0;
    while k < d.members.len()
        invariant
            k <= d.members@.len(),
            forall|b: int| 0 <= b < k ==> (#[trigger] d.members@[b]).fingerprint@ != fp@,
        decreases d.members.len() - k,
    {
        if bytes_equal(
            d.members[k].fingerprint.as_bytes().as_slice(),
            fp.as_bytes().as_slice(),
        ) {
            return true;
        }
        k = k + 1;
    }
    false
}

/// Storing a document that extends its chain keeps every history valid and
/// updates the model as `table_after_put` says.
proof fn lemma_put_valid(
    before: HistoryTable,
    hist_before: Seq<History>,
    hist_after: Seq<History>,
    t: HistoryTable,
    doc: KeyspaceDoc,
    found: Option<usize>,
)
    requires
        before == Seq::new(hist_before.len(), |k: int| (hist_before[k].id@, hist_before[k].docs@)),
        t == Seq::new(hist_after.len(), |k: int| (hist_after[k].id@, hist_after[k].docs@)),
        table_valid(before),
        chain_fault(version_hashes(before, doc.id@), doc) is None,
        match found {
            Some(i) => {
                &&& i < before.len()
                &&& history_index(before, doc.id@) == Some(i as int)
                &&& hist_after.len() == hist_before.len()
                &&& forall|k: int| 0 <= k < hist_before.len() && k != i ==> hist_after[k] == hist_before[k]
                &&& hist_after[i as int].id == hist_before[i as int].id
                &&& hist_after[i as int].docs@ == hist_before[i as int].docs@.push(doc)
            },
            None => {
                &&& history_index(before, doc.id@) is None
                &&& hist_after.len() == hist_before.len() + 1
                &&& forall|k: int| 0 <= k < hist_before.len() ==> hist_after[k] == hist_before[k]
                &&& hist_after[hist_before.len() as int].id == doc.id
                &&& hist_after[hist_before.len() as int].docs@ == seq![doc]
            },
        },
    ensures
        t == table_after_put(before, doc),
        table_valid(t),
{
    match found {
        Some(i) => {
            assert(t =~= before.update(i as int, (before[i as int].0, before[i as int].1.push(doc))));
            let old_docs = before[i as int].1;
            let hs = old_docs.map_values(|d: KeyspaceDoc| doc_hash_of(d));
            assert(version_hashes(before, doc.id@) == Some(hs));
            assert(chain_valid(before[i as int].0, old_docs));
            let new_docs = old_docs.push(doc);
            assert forall|j: int| 0 < j < new_docs.len() implies ((#[trigger] new_docs[j]).parent matches Some(p)
                && p@ == doc_hash_of(new_docs[j - 1])) by {
                if j == new_docs.len() - 1 {
                    assert(hs.last() == doc_hash_of(old_docs.last()));
                } else {
                    assert(new_docs[j] == old_docs[j]);
                    assert(new_docs[j - 1] == old_docs[j - 1]);
                }
            }
            assert forall|j: int| 0 <= j < new_docs.len() implies (#[trigger] new_docs[j]).version == j
                && new_docs[j].id@ == before[i as int].0 by {
                if j < old_docs.len() {
                    assert(new_docs[j] == old_docs[j]);
                }
            }
            assert(chain_valid(t[i as int].0, t[i as int].1));
            assert forall|k: int| 0 <= k < t.len() implies chain_valid(#[trigger] t[k].0, t[k].1) by {
                if k != i {
                    assert(t[k] == before[k]);
                }
            }
            assert forall|a: int, b: int| 0 <= a < b < t.len() implies #[trigger] t[a].0
                != #[trigger] t[b].0 by {
                assert(t[a].0 == before[a].0 && t[b].0 == before[b].0);
            }
        },
        None => {
            assert(t =~= before.push((doc.id@, seq![doc])));
            assert(chain_valid(doc.id@, seq![doc]));
            assert forall|k: int| 0 <= k < t.len() implies chain_valid(#[trigger] t[k].0, t[k].1) by {
                if k < before.len() {
                    assert(t[k] == before[k]);
                }
            }
            assert forall|a: int, b: int| 0 <= a < b < t.len() implies #[trigger] t[a].0
                != #[trigger] t[b].0 by {
                if b == before.len() {
                    assert(t[a] == before[a]);
                    assert(before[a].0 != doc.id@);
                } else {
                    assert(t[a] == before[a] && t[b] == before[b]);
                }
            }
        },
    }
}

/// Every keyspace history in a store is a valid hash-linked chain: version
/// j at position j, the first version without parent and each later one
/// naming the hash of its predecessor.
pub proof fn law_histories_are_chains(t: HistoryTable, id: Seq<u8>)
    requires
        table_valid(t),
        history_index(t, id) is Some,
    ensures
        chain_valid(id, t[history_index(t, id)->0].1),
{
}

/// A put appends the document's hash to its keyspace's version list (which
/// starts with it for a new keyspace) and leaves every other keyspace's
/// versions as they were.
pub proof fn law_put_then_versions(t: HistoryTable, doc: KeyspaceDoc, other: Seq<u8>)
    requires
        table_valid(t),
        other != doc.id@,
    ensures
        version_hashes(table_after_put(t, doc), doc.id@) == Some(
            match version_hashes(t, doc.id@) {
                Some(v) => v.push(doc_hash_of(doc)),
                None => seq![doc_hash_of(doc)],
            },
        ),
        version_hashes(table_after_put(t, doc), other) == version_hashes(t, other),
{
    let t2 = table_after_put(t, doc);
    law_put_then_latest(t, doc);
    let i2 = history_index(t2, doc.id@)->0;
    match history_index(t, doc.id@) {
        Some(i) => {
            assert(i2 == i) by {
                if i2 != i {
                    assert(t2[i2] == t[i2]);
                    assert(t[i2].0 != t[i].0);
                }
            }
            assert(t2[i].1.map_values(|d: KeyspaceDoc| doc_hash_of(d)) =~= t[i].1.map_values(
                |d: KeyspaceDoc| doc_hash_of(d),
            ).push(doc_hash_of(doc)));
        },
        None => {
            let n = t.len() as int;
            assert(i2 == n) by {
                if i2 < n {
                    assert(t2[i2] == t[i2]);
                }
            }
            assert(t2[n].1.map_values(|d: KeyspaceDoc| doc_hash_of(d)) =~= seq![doc_hash_of(doc)]);
        },
    }
    assert(version_hashes(t2, other) == version_hashes(t, other)) by {
        if exists|k: int| 0 <= k < t.len() && t[k].0 == other {
            let k = choose|k: int| 0 <= k < t.len() && t[k].0 == other;
            assert(t2[k].0 == other);
            let k2 = history_index(t2, other)->0;
            let k1 = history_index(t, other)->0;
            assert(t2[k2].0 == other);
            assert(k2 < t.len()) by {
                if k2 >= t.len() {
                    assert(t2[k2].0 == doc.id@);
                }
            }
            assert(t2[k2] == t[k2]) by {
                if history_index(t, doc.id@) is Some {
                    let i = history_index(t, doc.id@)->0;
                    if k2 == i {
                        assert(t[i].0 == doc.id@);
                    }
                }
            }
            assert(k1 == k2) by {
                if k1 != k2 {
                    assert(t[k1].0 == t[k2].0);
                }
            }
        } else {
            assert forall|k: int| 0 <= k < t2.len() implies t2[k].0 != other by {
                if k < t.len() {
                    assert(t2[k].0 == t[k].0);
                } else {
                    assert(t2[k].0 == doc.id@);
                }
            }
        }
    }
}

/// After a successful put, the keyspace's latest version is the document
/// just stored.
pub proof fn law_put_then_latest(t: HistoryTable, doc: KeyspaceDoc)
    requires
        table_valid(t),
    ensures
        history_index(table_after_put(t, doc), doc.id@) matches Some(i) && table_after_put(
            t,
            doc,
        )[i].1.last() == doc,
{
    let t2 = table_after_put(t, doc);
    match history_index(t, doc.id@) {
        Some(i) => {
            assert(t2[i].0 == doc.id@);
            let k = choose|k: int| 0 <= k < t2.len() && t2[k].0 == doc.id@;
            if k != i {
                assert(t2[k] == t[k]);
                assert(t[k].0 != t[i].0);
            }
        },
        None => {
            let n = t.len() as int;
            assert(t2[n].0 == doc.id@);
            let k = choose|k: int| 0 <= k < t2.len() && t2[k].0 == doc.id@;
            if k < n {
                assert(t2[k] == t[k]);
            }
        },
    }
}


/// Listing by member gives exactly the keyspaces whose latest document
/// lists the fingerprint, in creation order: the histories filtered on
/// their latest document's members, keeping the keyspace ids.
pub proof fn law_keyspaces_with_member(t: HistoryTable, fp: Seq<u8>)
    ensures
        keyspaces_with_member(t, fp) == t.filter(
            |e: (Seq<u8>, Seq<KeyspaceDoc>)| has_member(e.1.last(), fp),
        ).map_values(|e: (Seq<u8>, Seq<KeyspaceDoc>)| e.0),
        forall|j: int, k: int|
            0 <= j < t.len() && 0 <= k < t[j].1.last().members@.len() && (#[trigger] t[j].1.last(
            ).members@[k]).fingerprint@ == fp ==> keyspaces_with_member(t, fp).contains(t[j].0),
    decreases t.len(),
{
    reveal(Seq::filter);
    broadcast use vstd::seq_lib::group_filter_ensures;
    let p = |e: (Seq<u8>, Seq<KeyspaceDoc>)| has_member(e.1.last(), fp);
    let f = |e: (Seq<u8>, Seq<KeyspaceDoc>)| e.0;
    if t.len() > 0 {
        law_keyspaces_with_member(t.drop_last(), fp);
        let sub = t.drop_last().filter(p);
        if p(t.last()) {
            assert(sub.push(t.last()).map_values(f) =~= sub.map_values(f).push(t.last().0));
        }
    }
    assert forall|j: int, k: int|
        0 <= j < t.len() && 0 <= k < t[j].1.last().members@.len() && (#[trigger] t[j].1.last(
        ).members@[k]).fingerprint@ == fp implies keyspaces_with_member(t, fp).contains(t[j].0) by {
        assert(p(t[j]));
        assert(t.filter(p).contains(t[j]));
        let i = choose|i: int| 0 <= i < t.filter(p).len() && t.filter(p)[i] == t[j];
        assert(keyspaces_with_member(t, fp)[i] == t[j].0);
    }
}

} // verus!
