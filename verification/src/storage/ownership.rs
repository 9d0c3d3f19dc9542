//! Ownership of content-addressed files: each registered file (by its
//! 32-byte BLAKE3 hash) has exactly one owner.

use vstd::prelude::*;

use crate::seqs::bytes_equal;
use crate::storage::error::AuthError;
use crate::storage::fingerprint::PublicKeyFingerprint;

verus! {

broadcast use vstd::std_specs::vec::group_vec_axioms;

/// Registered files with their owners' fingerprints, in registration order.
pub type OwnerTable = Seq<(Seq<u8>, Seq<u8>)>;

/// No file is registered twice.
pub open spec fn owners_well_formed(t: OwnerTable) -> bool {
    forall|i: int, j: int| 0 <= i < j < t.len() ==> #[trigger] t[i].0 != #[trigger] t[j].0
}

/// The position of a file's record, if any.
pub open spec fn file_index(t: OwnerTable, file: Seq<u8>) -> Option<int> {
    if exists|i: int| 0 <= i < t.len() && t[i].0 == file {
        Some(choose|i: int| 0 <= i < t.len() && t[i].0 == file)
    } else {
        None
    }
}

/// The owner of a file, if it is registered.
pub open spec fn owner_of(t: OwnerTable, file: Seq<u8>) -> Option<Seq<u8>> {
    match file_index(t, file) {
        Some(i) => Some(t[i].1),
        None => None,
    }
}

/// The files owned by `owner`, in registration order.
pub open spec fn files_of(t: OwnerTable, owner: Seq<u8>) -> Seq<Seq<u8>>
    decreases t.len(),
{
    if t.len() == 0 {
        Seq::empty()
    } else if t.last().1 == owner {
        files_of(t.drop_last(), owner).push(t.last().0)
    } else {
        files_of(t.drop_last(), owner)
    }
}

/// In-memory ownership store.
pub struct InMemoryOwnershipStore {
    owners: Vec<([u8; 32], PublicKeyFingerprint)>,
}

impl View for InMemoryOwnershipStore {
    type V = OwnerTable;

    closed spec fn view(&self) -> OwnerTable {
        Seq::new(self.owners@.len(), |i: int| (self.owners@[i].0@, self.owners@[i].1@))
    }
}

impl InMemoryOwnershipStore {
    #[verifier::type_invariant]
    spec fn well_formed(self) -> bool {
        owners_well_formed(self@)
    }

    pub fn new() -> (r: Self)
        ensures
            r@ == Seq::<(Seq<u8>, Seq<u8>)>::empty(),
            owners_well_formed(r@),
    {
        let r = Self { owners: Vec::new() };
        assert(r@ =~= Seq::<(Seq<u8>, Seq<u8>)>::empty());
        r
    }

    /// Number of registered files.
    pub fn file_count(&self) -> (r: usize)
        ensures
            r == self@.len(),
    {
        self.owners.len()
    }

    /// Forget every record.
    pub fn clear(&mut self)
        ensures
            final(self)@ == Seq::<(Seq<u8>, Seq<u8>)>::empty(),
    {
        *self = Self::new();
    }

    fn find(&self, file: &[u8; 32]) -> (r: Option<usize>)
        ensures
            match r {
                Some(i) => i < self@.len() && file_index(self@, file@) == Some(i as int),
                None => file_index(self@, file@) is None,
            },
    {
        proof {
            use_type_invariant(self);
        }
        let mut i: usize = 0;
        while i < self.owners.len()
            invariant
                i <= self@.len(),
                owners_well_formed(self@),
                forall|j: int| 0 <= j < i ==> #[trigger] self@[j].0 != file@,
            decreases self.owners.len() - i,
        {
            if bytes_equal(self.owners[i].0.as_slice(), file.as_slice()) {
                assert(self@[i as int].0 == file@);
                proof {
                    let k = choose|k: int| 0 <= k < self@.len() && self@[k].0 == file@;
                    if k != i {
                        assert(self@[k].0 != self@[i as int].0);
                    }
                }
                return Some(i);
            }
            i = i + 1;
        }
        None
    }

    /// Replace the record at `i`.
    fn set_owner(&mut self, i: usize, file: [u8; 32], owner: PublicKeyFingerprint)
        requires
            i < old(self)@.len(),
            old(self)@[i as int].0 == file@,
        ensures
            final(self)@ == old(self)@.update(i as int, (file@, owner@)),
    {
        let ghost before = self@;
        let mut held = Self::new();
        std::mem::swap(self, &mut held);
        proof {
            use_type_invariant(&held);
        }
        let InMemoryOwnershipStore { mut owners } = held;
        owners.set(i, (file, owner));
        let ghost t = Seq::new(owners@.len(), |k: int| (owners@[k].0@, owners@[k].1@));
        assert(t =~= before.update(i as int, (file@, owner@)));
        assert forall|a: int, b: int| 0 <= a < b < t.len() implies #[trigger] t[a].0
            != #[trigger] t[b].0 by {
            assert(t[a].0 == before[a].0 && t[b].0 == before[b].0);
        }
        *self = InMemoryOwnershipStore { owners };
    }

    /// Register a file as owned by `owner`. Registering it again for the same
    /// owner changes nothing; a file registered to another owner is refused.
    pub fn register(&mut self, owner: &PublicKeyFingerprint, file_hash: &[u8; 32]) -> (r: Result<
        (),
        AuthError,
    >)
        ensures
            match owner_of(old(self)@, file_hash@) {
                Some(o) => final(self)@ == old(self)@ && (if o == owner@ {
                    r is Ok
                } else {
                    r matches Err(e) && e is AlreadyExists
                }),
                None => r is Ok && final(self)@ == old(self)@.push((file_hash@, owner@)),
            },
            owners_well_formed(final(self)@),
    {
        proof {
            use_type_invariant(&*self);
        }
        if let Some(i) = self.find(file_hash) {
            if bytes_equal(self.owners[i].1.as_bytes().as_slice(), owner.as_bytes().as_slice()) {
                return Ok(());
            }
            return Err(AuthError::AlreadyExists("file already owned by a different key".to_owned()));
        }
        let ghost before = self@;
        let mut held = Self::new();
        std::mem::swap(self, &mut held);
        proof {
            use_type_invariant(&held);
        }
        let InMemoryOwnershipStore { mut owners } = held;
        owners.push((*file_hash, *owner));
        let ghost t = Seq::new(owners@.len(), |k: int| (owners@[k].0@, owners@[k].1@));
        assert(t =~= before.push((file_hash@, owner@)));
        assert forall|a: int, b: int| 0 <= a < b < t.len() implies #[trigger] t[a].0
            != #[trigger] t[b].0 by {
            if b == before.len() {
                assert(t[a] == before[a]);
            } else {
                assert(t[a] == before[a] && t[b] == before[b]);
            }
        }
        *self = InMemoryOwnershipStore { owners };
        Ok(())
    }

    /// Whether `owner` owns the file.
    pub fn is_owner(&self, owner: &PublicKeyFingerprint, file_hash: &[u8; 32]) -> (r: bool)
        ensures
            r == (owner_of(self@, file_hash@) == Some(owner@)),
    {
        match self.find(file_hash) {
            Some(i) => bytes_equal(
                self.owners[i].1.as_bytes().as_slice(),
                owner.as_bytes().as_slice(),
            ),
            None => false,
        }
    }

    /// The files `owner` owns, in registration order.
    pub fn list_owned(&self, owner: &PublicKeyFingerprint) -> (r: Vec<[u8; 32]>)
        ensures
            r@.map_values(|f: [u8; 32]| f@) == files_of(self@, owner@),
    {
        let mut out: Vec<[u8; 32]> = Vec::new();
        let mut i: usize = 0;
        while i < self.owners.len()
            invariant
                i <= self@.len(),
                out@.map_values(|f: [u8; 32]| f@) == files_of(self@.take(i as int), owner@),
            decreases self.owners.len() - i,
        {
            assert(self@.take(i + 1).drop_last() =~= self@.take(i as int));
            if bytes_equal(self.owners[i].1.as_bytes().as_slice(), owner.as_bytes().as_slice()) {
                let ghost before = out@;
                out.push(self.owners[i].0);
                assert(out@.map_values(|f: [u8; 32]| f@) =~= before.map_values(|f: [u8; 32]| f@).push(
                    self@[i as int].0,
                ));
            }
            i = i + 1;
        }
        assert(self@.take(self@.len() as int) =~= self@);
        out
    }

    /// Transfer a file from its owner `from` to `to`. Only the current owner
    /// can transfer.
    pub fn transfer(
        &mut self,
        from: &PublicKeyFingerprint,
        to: &PublicKeyFingerprint,
        file_hash: &[u8; 32],
    ) -> (r: Result<(), AuthError>)
        ensures
            match file_index(old(self)@, file_hash@) {
                Some(i) => if old(self)@[i].1 == from@ {
                    r is Ok && final(self)@ == old(self)@.update(i, (file_hash@, to@))
                } else {
                    r matches Err(e) && e is NotAuthorized && final(self)@ == old(self)@
                },
                None => r matches Err(e) && e is FileNotFound && final(self)@ == old(self)@,
            },
            owners_well_formed(final(self)@),
    {
        proof {
            use_type_invariant(&*self);
        }
        match self.find(file_hash) {
            Some(i) => {
                if bytes_equal(self.owners[i].1.as_bytes().as_slice(), from.as_bytes().as_slice()) {
                    self.set_owner(i, *file_hash, *to);
                    proof {
                        use_type_invariant(&*self);
                    }
                    Ok(())
                } else {
                    Err(AuthError::NotAuthorized("only the owner can transfer".to_owned()))
                }
            },
            None => Err(AuthError::FileNotFound("file is not registered".to_owned())),
        }
    }

    /// Remove a file's record. Only its owner can.
    pub fn unregister(&mut self, owner: &PublicKeyFingerprint, file_hash: &[u8; 32]) -> (r: Result<
        (),
        AuthError,
    >)
        ensures
            match file_index(old(self)@, file_hash@) {
                Some(i) => if old(self)@[i].1 == owner@ {
                    r is Ok && final(self)@ == old(self)@.remove(i)
                } else {
                    r matches Err(e) && e is NotAuthorized && final(self)@ == old(self)@
                },
                None => r matches Err(e) && e is NotAuthorized && final(self)@ == old(self)@,
            },
            owners_well_formed(final(self)@),
    {
        proof {
            use_type_invariant(&*self);
        }
        let i = match self.find(file_hash) {
            Some(i) => i,
            None => {
                return Err(AuthError::NotAuthorized("only the owner can unregister".to_owned()));
            },
        };
        if !bytes_equal(self.owners[i].1.as_bytes().as_slice(), owner.as_bytes().as_slice()) {
            return Err(AuthError::NotAuthorized("only the owner can unregister".to_owned()));
        }
        let ghost before = self@;
        let mut held = Self::new();
        std::mem::swap(self, &mut held);
        proof {
            use_type_invariant(&held);
        }
        let InMemoryOwnershipStore { mut owners } = held;
        owners.remove(i);
        let ghost t = Seq::new(owners@.len(), |k: int| (owners@[k].0@, owners@[k].1@));
        assert(t =~= before.remove(i as int));
        assert forall|a: int, b: int| 0 <= a < b < t.len() implies #[trigger] t[a].0
            != #[trigger] t[b].0 by {
            let a2 = if a < i { a } else { a + 1 };
            let b2 = if b < i { b } else { b + 1 };
            assert(t[a] == before[a2] && t[b] == before[b2]);
        }
        *self = InMemoryOwnershipStore { owners };
        Ok(())
    }
}

/// After a successful registration the owner owns the file; a file
/// registered to someone is refused to anyone else.
pub proof fn law_register_then_owner(t: OwnerTable, owner: Seq<u8>, file: Seq<u8>)
    requires
        owners_well_formed(t),
        owner_of(t, file) is None,
    ensures
        owner_of(t.push((file, owner)), file) == Some(owner),
{
    let t2 = t.push((file, owner));
    assert(t2[t.len() as int].0 == file);
    let k = choose|k: int| 0 <= k < t2.len() && t2[k].0 == file;
    if k < t.len() {
        assert(t2[k] == t[k]);
    }
}

/// After a transfer the new owner owns the file and the old owner does not.
pub proof fn law_transfer_moves_ownership(t: OwnerTable, i: int, to: Seq<u8>)
    requires
        owners_well_formed(t),
        0 <= i < t.len(),
    ensures
        owner_of(t.update(i, (t[i].0, to)), t[i].0) == Some(to),
{
    let t2 = t.update(i, (t[i].0, to));
    assert(t2[i].0 == t[i].0);
    let k = choose|k: int| 0 <= k < t2.len() && t2[k].0 == t[i].0;
    if k != i {
        assert(t2[k] == t[k]);
    }
}

/// After unregistering, the file has no owner.
pub proof fn law_unregister_removes(t: OwnerTable, i: int)
    requires
        owners_well_formed(t),
        0 <= i < t.len(),
    ensures
        owner_of(t.remove(i), t[i].0) is None,
{
    let t2 = t.remove(i);
    assert forall|k: int| 0 <= k < t2.len() implies t2[k].0 != t[i].0 by {
        if k < i {
            assert(t2[k] == t[k]);
        } else {
            assert(t2[k] == t[k + 1]);
        }
    }
}


/// Listing an owner's files gives exactly the files registered to that
/// owner, in registration order: the table filtered on the owner, keeping
/// the file ids.
pub proof fn law_files_of(t: OwnerTable, owner: Seq<u8>)
    ensures
        files_of(t, owner) == t.filter(|e: (Seq<u8>, Seq<u8>)| e.1 == owner).map_values(
            |e: (Seq<u8>, Seq<u8>)| e.0,
        ),
        forall|j: int|
            0 <= j < t.len() && (#[trigger] t[j]).1 == owner ==> files_of(t, owner).contains(t[j].0),
    decreases t.len(),
{
    reveal(Seq::filter);
    broadcast use vstd::seq_lib::group_filter_ensures;
    let p = |e: (Seq<u8>, Seq<u8>)| e.1 == owner;
    let f = |e: (Seq<u8>, Seq<u8>)| e.0;
    if t.len() > 0 {
        law_files_of(t.drop_last(), owner);
        let sub = t.drop_last().filter(p);
        if p(t.last()) {
            assert(sub.push(t.last()).map_values(f) =~= sub.map_values(f).push(t.last().0));
        }
    }
    assert forall|j: int| 0 <= j < t.len() && (#[trigger] t[j]).1 == owner implies files_of(
        t,
        owner,
    ).contains(t[j].0) by {
        assert(t.filter(p).contains(t[j]));
        let k = choose|k: int| 0 <= k < t.filter(p).len() && t.filter(p)[k] == t[j];
        assert(files_of(t, owner)[k] == t[j].0);
    }
}

} // verus!
