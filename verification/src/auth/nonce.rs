//! Verifier-issued nonces and replay protection.

use vstd::prelude::*;

use crate::auth::challenge::{Challenge, ChallengeView, MIN_NONCE_LEN, VERSION};
use crate::auth::error::{AuthError, Fault};
use crate::foreign::random::random_bytes;
use crate::seqs::{bytes_equal, to_vec};

verus! {

broadcast use vstd::std_specs::vec::group_vec_axioms;

/// What a nonce store holds: each issued nonce with its expiry (Unix
/// seconds) and whether it has been used.
pub type NonceTable = Map<Seq<u8>, (u64, bool)>;

/// Why consuming `nonce` at time `now` fails, or `None` when it succeeds: a
/// nonce is consumed once, only if it was issued and has not expired.
pub open spec fn consume_fault(m: NonceTable, nonce: Seq<u8>, now: u64) -> Option<Fault> {
    if !m.dom().contains(nonce) {
        Some(Fault::NonceReplay)
    } else if m[nonce].1 {
        Some(Fault::NonceReplay)
    } else if now > m[nonce].0 {
        Some(Fault::TimeWindow)
    } else {
        None
    }
}

/// The table after consuming `nonce` at `now`: marked used on success,
/// unchanged otherwise.
pub open spec fn after_consume(m: NonceTable, nonce: Seq<u8>, now: u64) -> NonceTable {
    if consume_fault(m, nonce, now) is None {
        m.insert(nonce, (m[nonce].0, true))
    } else {
        m
    }
}

/// The table after dropping the entries that expired before `now`.
pub open spec fn after_gc(m: NonceTable, now: u64) -> NonceTable {
    Map::new(|k: Seq<u8>| m.dom().contains(k) && m[k].0 >= now, |k: Seq<u8>| m[k])
}

/// Stores the nonces a verifier has issued and consumes them on use, so each
/// challenge is answerable exactly once and only if this verifier issued it.
pub trait NonceStore {
    /// The issued nonces.
    spec fn issued(&self) -> NonceTable;

    /// Record a freshly issued nonce and its absolute expiry (Unix seconds).
    fn record_issued(&mut self, nonce: &[u8], expires_at: u64)
        ensures
            final(self).issued() == old(self).issued().insert(nonce@, (expires_at, false)),
    ;

    /// Consume a nonce on a successful proof. Fails if the nonce was never
    /// issued here, was already used, or has expired.
    fn consume(&mut self, nonce: &[u8], now: u64) -> (r: Result<(), AuthError>)
        ensures
            match r {
                Ok(()) => consume_fault(old(self).issued(), nonce@, now) is None,
                Err(e) => consume_fault(old(self).issued(), nonce@, now) == Some(e@),
            },
            final(self).issued() == after_consume(old(self).issued(), nonce@, now),
    ;

    /// Drop expired entries.
    fn gc(&mut self, now: u64)
        ensures
            final(self).issued() == after_gc(old(self).issued(), now),
            forall|k: Seq<u8>| #[trigger]
                final(self).issued().dom().contains(k) <==> (old(self).issued().dom().contains(k)
                    && old(self).issued()[k].0 >= now),
            forall|k: Seq<u8>| #[trigger]
                final(self).issued().dom().contains(k) ==> final(self).issued()[k] == old(
                    self,
                ).issued()[k],
    ;
}

/// The entries hold exactly the table: each entry is the table's value for
/// its nonce, each nonce of the table has an entry, and no nonce has two.
pub open spec fn table_matches(entries: Seq<(Vec<u8>, u64, bool)>, t: NonceTable) -> bool {
    &&& forall|i: int|
        0 <= i < entries.len() ==> t.dom().contains(#[trigger] entries[i].0@) && t[entries[i].0@]
            == (entries[i].1, entries[i].2)
    &&& forall|k: Seq<u8>|
        t.dom().contains(k) ==> exists|i: int| 0 <= i < entries.len() && #[trigger] entries[i].0@ == k
    &&& forall|i: int, j: int|
        0 <= i < j < entries.len() ==> #[trigger] entries[i].0@ != #[trigger] entries[j].0@
}

/// In-memory [`NonceStore`] for a single-process verifier: one entry
/// (nonce, expiry, used) per issued nonce.
pub struct InMemoryNonceStore {
    entries: Vec<(Vec<u8>, u64, bool)>,
    table: Ghost<NonceTable>,
}

impl InMemoryNonceStore {
    #[verifier::type_invariant]
    spec fn well_formed(self) -> bool {
        table_matches(self.entries@, self.table@)
    }

    pub fn new() -> (r: Self)
        ensures
            r.issued() == Map::<Seq<u8>, (u64, bool)>::empty(),
    {
        Self { entries: Vec::new(), table: Ghost(Map::empty()) }
    }

    /// The position of the entry for `nonce`, if any.
    fn find(&self, nonce: &[u8]) -> (r: Option<usize>)
        ensures
            match r {
                Some(i) => i < self.entries@.len() && self.entries@[i as int].0@ == nonce@,
                None => forall|i: int|
                    0 <= i < self.entries@.len() ==> #[trigger] self.entries@[i].0@ != nonce@,
            },
    {
        let mut i: usize = 0;
        while i < self.entries.len()
            invariant
                i <= self.entries@.len(),
                forall|j: int| 0 <= j < i ==> #[trigger] self.entries@[j].0@ != nonce@,
            decreases self.entries.len() - i,
        {
            if bytes_equal(self.entries[i].0.as_slice(), nonce) {
                return Some(i);
            }
            i = i + 1;
        }
        None
    }
}

impl Default for InMemoryNonceStore {
    fn default() -> (r: Self)
        ensures
            r.issued() == Map::<Seq<u8>, (u64, bool)>::empty(),
    {
        Self::new()
    }
}

impl NonceStore for InMemoryNonceStore {
    closed spec fn issued(&self) -> NonceTable {
        self.table@
    }

    fn record_issued(&mut self, nonce: &[u8], expires_at: u64) {
        let found = self.find(nonce);
        let mut held = InMemoryNonceStore::new();
        std::mem::swap(self, &mut held);
        proof {
            use_type_invariant(&held);
        }
        let InMemoryNonceStore { mut entries, table } = held;
        let ghost before = entries@;
        let ghost t = table@.insert(nonce@, (expires_at, false));
        match found {
            Some(i) => {
                entries.set(i, (to_vec(nonce), expires_at, false));
            },
            None => {
                entries.push((to_vec(nonce), expires_at, false));
            },
        }
        assert forall|k: Seq<u8>| t.dom().contains(k) implies exists|i: int|
            0 <= i < entries@.len() && #[trigger] entries@[i].0@ == k by {
            if k == nonce@ {
                match found {
                    Some(i) => assert(entries@[i as int].0@ == k),
                    None => assert(entries@[entries@.len() - 1].0@ == k),
                }
            } else {
                let j = choose|j: int| 0 <= j < before.len() && #[trigger] before[j].0@ == k;
                assert(entries@[j] == before[j]);
            }
        }
        assert forall|a: int| 0 <= a < entries@.len() implies t.dom().contains(
            #[trigger] entries@[a].0@,
        ) && t[entries@[a].0@] == (entries@[a].1, entries@[a].2) by {
            match found {
                Some(i) => if a != i {
                    assert(entries@[a] == before[a]);
                    assert(before[a].0@ != before[i as int].0@);
                },
                None => if a < before.len() {
                    assert(entries@[a] == before[a]);
                    assert(before[a].0@ != nonce@);
                },
            }
        }
        assert forall|a: int, b: int| 0 <= a < b < entries@.len() implies #[trigger] entries@[a].0@
            != #[trigger] entries@[b].0@ by {
            match found {
                Some(i) => {
                    assert(before[a].0@ != before[b].0@);
                },
                None => if b < before.len() {
                    assert(before[a].0@ != before[b].0@);
                } else {
                    assert(entries@[a] == before[a]);
                },
            }
        }
        assert(table_matches(entries@, t));
        *self = InMemoryNonceStore { entries, table: Ghost(t) };
    }

    fn consume(&mut self, nonce: &[u8], now: u64) -> (r: Result<(), AuthError>) {
        proof {
            use_type_invariant(&*self);
        }
        let i = match self.find(nonce) {
            Some(i) => i,
            None => {
                return Err(AuthError::NonceReplay);
            },
        };
        let expires_at = self.entries[i].1;
        if self.entries[i].2 {
            return Err(AuthError::NonceReplay);
        }
        if now > expires_at {
            return Err(AuthError::TimeWindow);
        }
        let mut held = InMemoryNonceStore::new();
        std::mem::swap(self, &mut held);
        proof {
            use_type_invariant(&held);
        }
        let InMemoryNonceStore { mut entries, table } = held;
        let ghost before = entries@;
        let ghost t = table@.insert(nonce@, (expires_at, true));
        entries.set(i, (to_vec(nonce), expires_at, true));
        assert forall|k: Seq<u8>| t.dom().contains(k) implies exists|j: int|
            0 <= j < entries@.len() && #[trigger] entries@[j].0@ == k by {
            if k == nonce@ {
                assert(entries@[i as int].0@ == k);
            } else {
                let j = choose|j: int| 0 <= j < before.len() && #[trigger] before[j].0@ == k;
                assert(entries@[j] == before[j]);
            }
        }
        assert forall|a: int| 0 <= a < entries@.len() implies t.dom().contains(
            #[trigger] entries@[a].0@,
        ) && t[entries@[a].0@] == (entries@[a].1, entries@[a].2) by {
            if a != i {
                assert(entries@[a] == before[a]);
                assert(before[a].0@ != before[i as int].0@);
            }
        }
        assert forall|a: int, b: int| 0 <= a < b < entries@.len() implies #[trigger] entries@[a].0@
            != #[trigger] entries@[b].0@ by {
            assert(before[a].0@ != before[b].0@);
        }
        assert(table_matches(entries@, t));
        *self = InMemoryNonceStore { entries, table: Ghost(t) };
        Ok(())
    }

    fn gc(&mut self, now: u64) {
        let mut held = InMemoryNonceStore::new();
        std::mem::swap(self, &mut held);
        proof {
            use_type_invariant(&held);
        }
        let InMemoryNonceStore { entries, table } = held;
        let ghost t = after_gc(table@, now);
        let mut kept: Vec<(Vec<u8>, u64, bool)> = Vec::new();
        let ghost mut from: Seq<int> = Seq::empty();
        let mut i: usize = 0;
        while i < entries.len()
            invariant
                i <= entries@.len(),
                t == after_gc(table@, now),
                from.len() == kept@.len(),
                forall|j: int|
                    0 <= j < entries@.len() ==> table@.dom().contains(#[trigger] entries@[j].0@)
                        && table@[entries@[j].0@] == (entries@[j].1, entries@[j].2),
                forall|a: int, b: int|
                    0 <= a < b < entries@.len() ==> #[trigger] entries@[a].0@
                        != #[trigger] entries@[b].0@,
                forall|j: int|
                    0 <= j < kept@.len() ==> 0 <= #[trigger] from[j] < i && kept@[j].0@
                        == entries@[from[j]].0@ && kept@[j].1 == entries@[from[j]].1
                        && kept@[j].2 == entries@[from[j]].2 && entries@[from[j]].1 >= now,
                forall|a: int, b: int| 0 <= a < b < kept@.len() ==> #[trigger] from[a] < #[trigger] from[b],
                forall|j: int|
                    0 <= j < i && #[trigger] entries@[j].1 >= now ==> exists|a: int|
                        0 <= a < kept@.len() && #[trigger] from[a] == j,
            decreases entries.len() - i,
        {
            if entries[i].1 >= now {
                let e = (to_vec(entries[i].0.as_slice()), entries[i].1, entries[i].2);
                kept.push(e);
                let ghost prev = from;
                proof {
                    from = from.push(i as int);
                    assert forall|j: int|
                        0 <= j < i + 1 && #[trigger] entries@[j].1 >= now implies exists|a: int|
                        0 <= a < kept@.len() && #[trigger] from[a] == j by {
                        if j < i {
                            let a = choose|a: int| 0 <= a < prev.len() && #[trigger] prev[a] == j;
                            assert(from[a] == j);
                        } else {
                            assert(from[from.len() - 1] == j);
                        }
                    }
                }
            }
            i = i + 1;
        }
        assert forall|k: Seq<u8>| t.dom().contains(k) implies exists|a: int|
            0 <= a < kept@.len() && #[trigger] kept@[a].0@ == k by {
            let j = choose|j: int| 0 <= j < entries@.len() && #[trigger] entries@[j].0@ == k;
            assert(entries@[j].1 >= now);
            let a = choose|a: int| 0 <= a < kept@.len() && #[trigger] from[a] == j;
            assert(kept@[a].0@ == k);
        }
        assert forall|a: int, b: int| 0 <= a < b < kept@.len() implies #[trigger] kept@[a].0@
            != #[trigger] kept@[b].0@ by {
            assert(from[a] < from[b]);
        }
        assert forall|j: int| 0 <= j < kept@.len() implies t.dom().contains(#[trigger] kept@[j].0@)
            && t[kept@[j].0@] == (kept@[j].1, kept@[j].2) by {
            let s = from[j];
            assert(entries@[s].0@ == kept@[j].0@);
        }
        assert(table_matches(kept@, t));
        *self = InMemoryNonceStore { entries: kept, table: Ghost(t) };
    }
}

/// Issues challenges for a fixed audience and records their nonces in a
/// [`NonceStore`].
pub struct ChallengeIssuer {
    audience: String,
    ttl_secs: u64,
}

impl View for ChallengeIssuer {
    /// The audience and the lifetime of issued challenges, in seconds.
    type V = (Seq<char>, u64);

    closed spec fn view(&self) -> (Seq<char>, u64) {
        (self.audience@, self.ttl_secs)
    }
}

impl ChallengeIssuer {
    pub fn new(audience: &str, ttl_secs: u64) -> (r: Self)
        ensures
            r@ == (audience@, ttl_secs),
    {
        Self { audience: audience.to_owned(), ttl_secs }
    }

    /// Issue a fresh challenge at time `now` (Unix seconds) with a random
    /// nonce, and record the nonce in the store.
    pub fn issue<S: NonceStore>(&self, store: &mut S, now: u64) -> (r: Challenge)
        requires
            now + self@.1 <= u64::MAX,
        ensures
            r@ == (ChallengeView {
                version: VERSION,
                audience: self@.0,
                nonce: r.nonce@,
                issued_at: now,
                expires_at: (now + self@.1) as u64,
            }),
            r.nonce@.len() == MIN_NONCE_LEN,
            final(store).issued() == old(store).issued().insert(r.nonce@, ((now + self@.1) as u64, false)),
    {
        let nonce = random_bytes(MIN_NONCE_LEN);
        let expires_at = now + self.ttl_secs;
        store.record_issued(nonce.as_slice(), expires_at);
        Challenge {
            version: VERSION,
            audience: self.audience.clone(),
            nonce,
            issued_at: now,
            expires_at,
        }
    }
}

/// A nonce is consumed at most once: after a successful consumption, every
/// later attempt fails as a replay.
pub proof fn law_nonce_single_use(m: NonceTable, nonce: Seq<u8>, now: u64, later: u64)
    requires
        consume_fault(m, nonce, now) is None,
    ensures
        consume_fault(after_consume(m, nonce, now), nonce, later) == Some(Fault::NonceReplay),
{
}

/// A freshly recorded nonce is accepted once before its expiry, and
/// rejected as expired after it.
pub proof fn law_recorded_nonce_consumable(m: NonceTable, nonce: Seq<u8>, expires_at: u64, now: u64)
    ensures
        consume_fault(m.insert(nonce, (expires_at, false)), nonce, now) is None <==> now
            <= expires_at,
        now > expires_at ==> consume_fault(m.insert(nonce, (expires_at, false)), nonce, now)
            == Some(Fault::TimeWindow),
{
}

/// A nonce that was never issued is never accepted.
pub proof fn law_unissued_nonce_rejected(m: NonceTable, nonce: Seq<u8>, now: u64)
    requires
        !m.dom().contains(nonce),
    ensures
        consume_fault(m, nonce, now) == Some(Fault::NonceReplay),
        after_consume(m, nonce, now) == m,
{
}

/// Garbage collection drops exactly the entries that expired before `now`:
/// every other nonce stays with its expiry and used flag, whether or not it
/// was used.
pub proof fn law_gc_keeps_live(m: NonceTable, now: u64, k: Seq<u8>)
    ensures
        after_gc(m, now).dom().contains(k) <==> (m.dom().contains(k) && m[k].0 >= now),
        after_gc(m, now).dom().contains(k) ==> after_gc(m, now)[k] == m[k],
        m.dom().contains(k) && m[k].0 < now ==> !after_gc(m, now).dom().contains(k),
{
}

/// An issued, unused nonce that has not expired survives garbage collection:
/// it can still be consumed at any time up to its expiry.
pub proof fn law_outstanding_nonce_survives_gc(m: NonceTable, nonce: Seq<u8>, now: u64, later: u64)
    requires
        m.dom().contains(nonce),
        !m[nonce].1,
        now <= later,
        later <= m[nonce].0,
    ensures
        consume_fault(after_gc(m, now), nonce, later) is None,
        consume_fault(after_gc(m, now), nonce, later) == consume_fault(m, nonce, later),
{
}

/// Garbage collection changes no answer of the store at a time no earlier
/// than the collection's: consuming at `later >= now` fails or succeeds as it
/// would have without it.
pub proof fn law_gc_preserves_consume(m: NonceTable, nonce: Seq<u8>, now: u64, later: u64)
    requires
        now <= later,
    ensures
        consume_fault(after_gc(m, now), nonce, later) is None <==> consume_fault(m, nonce, later) is None,
{
}

} // verus!
