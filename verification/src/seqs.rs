//! Byte-sequence helpers shared by the canonical encoders: lexicographic
//! order on byte strings, a stable sort of (key, payload) pairs by key, and
//! verified byte-level utilities.

use vstd::prelude::*;

verus! {

/// Lexicographic "strictly less" on byte strings (the order of `Vec<u8>`).
pub open spec fn lex_lt(a: Seq<u8>, b: Seq<u8>) -> bool
    decreases a.len(),
{
    if a.len() == 0 {
        b.len() > 0
    } else if b.len() == 0 {
        false
    } else if a[0] < b[0] {
        true
    } else if a[0] > b[0] {
        false
    } else {
        lex_lt(a.drop_first(), b.drop_first())
    }
}

pub proof fn lemma_lex_irreflexive(a: Seq<u8>)
    ensures
        !lex_lt(a, a),
    decreases a.len(),
{
    if a.len() > 0 {
        lemma_lex_irreflexive(a.drop_first());
    }
}

pub proof fn lemma_lex_asymmetric(a: Seq<u8>, b: Seq<u8>)
    ensures
        !(lex_lt(a, b) && lex_lt(b, a)),
    decreases a.len(),
{
    if a.len() > 0 && b.len() > 0 && a[0] == b[0] {
        lemma_lex_asymmetric(a.drop_first(), b.drop_first());
    }
}

pub proof fn lemma_lex_transitive(a: Seq<u8>, b: Seq<u8>, c: Seq<u8>)
    requires
        lex_lt(a, b),
        lex_lt(b, c),
    ensures
        lex_lt(a, c),
    decreases a.len(),
{
    if a.len() > 0 && b.len() > 0 && c.len() > 0 && a[0] == b[0] && b[0] == c[0] {
        lemma_lex_transitive(a.drop_first(), b.drop_first(), c.drop_first());
    }
}

#[verifier::spinoff_prover]
pub proof fn lemma_lex_total(a: Seq<u8>, b: Seq<u8>)
    ensures
        a == b || lex_lt(a, b) || lex_lt(b, a),
    decreases a.len(),
{
    if a.len() > 0 && b.len() > 0 && a[0] == b[0] {
        let a1 = a.drop_first();
        let b1 = b.drop_first();
        lemma_lex_total(a1, b1);
        if a1 == b1 {
            assert forall|i: int| 0 <= i < a.len() implies a[i] == b[i] by {
                if i > 0 {
                    assert(a[i] == a1[i - 1] && b[i] == b1[i - 1]);
                }
            }
            assert(a =~= b);
        }
    } else if a.len() == 0 && b.len() == 0 {
        assert(a =~= b);
    }
}

/// Two byte strings that agree on their first `k` bytes and differ at byte
/// `k` are ordered by that byte.
pub proof fn lemma_lex_first_diff(a: Seq<u8>, b: Seq<u8>, k: int)
    requires
        0 <= k < a.len(),
        k < b.len(),
        forall|j: int| 0 <= j < k ==> a[j] == b[j],
        a[k] < b[k],
    ensures
        lex_lt(a, b),
    decreases k,
{
    if k > 0 {
        assert forall|j: int| 0 <= j < k - 1 implies a.drop_first()[j] == b.drop_first()[j] by {
            assert(a[j + 1] == b[j + 1]);
        }
        lemma_lex_first_diff(a.drop_first(), b.drop_first(), k - 1);
        assert(a[0] == b[0]);
    }
}

/// Lexicographic comparison of two byte strings.
pub fn lex_less(a: &[u8], b: &[u8]) -> (r: bool)
    ensures
        r == lex_lt(a@, b@),
{
    let mut i: usize = 0;
    assert(a@.skip(0) =~= a@);
    assert(b@.skip(0) =~= b@);
    while i < a.len() && i < b.len()
        invariant
            i <= a.len(),
            i <= b.len(),
            lex_lt(a@, b@) == lex_lt(a@.skip(i as int), b@.skip(i as int)),
        decreases a.len() - i,
    {
        if a[i] < b[i] {
            return true;
        }
        if a[i] > b[i] {
            return false;
        }
        assert(a@.skip(i as int).drop_first() =~= a@.skip(i + 1));
        assert(b@.skip(i as int).drop_first() =~= b@.skip(i + 1));
        i = i + 1;
    }
    i < b.len()
}

/// Byte-wise equality of two byte strings.
pub fn bytes_equal(a: &[u8], b: &[u8]) -> (r: bool)
    ensures
        r == (a@ == b@),
{
    if a.len() != b.len() {
        return false;
    }
    let mut i: usize = 0;
    while i < a.len()
        invariant
            a.len() == b.len(),
            i <= a.len(),
            forall|j: int| 0 <= j < i ==> a@[j] == b@[j],
        decreases a.len() - i,
    {
        if a[i] != b[i] {
            return false;
        }
        i = i + 1;
    }
    assert(a@ =~= b@);
    true
}

/// Append a byte slice to a vector.
pub fn append_bytes(out: &mut Vec<u8>, bytes: &[u8])
    ensures
        final(out)@ == old(out)@ + bytes@,
{
    let mut i: usize = 0;
    while i < bytes.len()
        invariant
            i <= bytes.len(),
            out@ == old(out)@ + bytes@.take(i as int),
        decreases bytes.len() - i,
    {
        out.push(bytes[i]);
        assert(bytes@.take(i + 1) =~= bytes@.take(i as int).push(bytes@[i as int]));
        i = i + 1;
    }
    assert(bytes@.take(bytes.len() as int) =~= bytes@);
}

/// The low `k` bytes of `n`, least significant first.
pub open spec fn le_bytes(n: nat, k: nat) -> Seq<u8>
    decreases k,
{
    if k == 0 {
        Seq::empty()
    } else {
        seq![(n % 256) as u8] + le_bytes(n / 256, (k - 1) as nat)
    }
}

/// Append the low `k` bytes of `v`, least significant first.
pub fn push_le(out: &mut Vec<u8>, v: u64, k: usize)
    ensures
        final(out)@ == old(out)@ + le_bytes(v as nat, k as nat),
    decreases k,
{
    if k > 0 {
        out.push((v % 256) as u8);
        push_le(out, v / 256, k - 1);
    }
}

/// `le_bytes(n, k)` has `k` bytes.
pub proof fn lemma_le_bytes_len(n: nat, k: nat)
    ensures
        le_bytes(n, k).len() == k,
    decreases k,
{
    if k > 0 {
        lemma_le_bytes_len(n / 256, (k - 1) as nat);
    }
}

/// The number whose bytes, least significant first, are `s`.
pub open spec fn le_value(s: Seq<u8>) -> nat
    decreases s.len(),
{
    if s.len() == 0 {
        0
    } else {
        s[0] as nat + 256 * le_value(s.drop_first())
    }
}

/// Writing out the value of a byte string gives the byte string back.
pub proof fn lemma_le_bytes_of_value(s: Seq<u8>)
    ensures
        le_bytes(le_value(s), s.len()) == s,
    decreases s.len(),
{
    if s.len() > 0 {
        let v = le_value(s);
        let rest = le_value(s.drop_first());
        assert(v % 256 == s[0] as nat && v / 256 == rest) by (nonlinear_arith)
            requires
                v == s[0] as nat + 256 * rest,
                s[0] < 256,
        ;
        lemma_le_bytes_of_value(s.drop_first());
        assert(le_bytes(v, s.len()) =~= s);
    }
}

/// Two numbers below `256^k` with the same low `k` bytes are equal.
pub proof fn lemma_le_bytes_injective(a: nat, b: nat, k: nat)
    requires
        le_bytes(a, k) == le_bytes(b, k),
        a < crate::auth::cbor::pow256(k),
        b < crate::auth::cbor::pow256(k),
    ensures
        a == b,
    decreases k,
{
    if k > 0 {
        assert(le_bytes(a, k)[0] == le_bytes(b, k)[0]);
        assert(le_bytes(a, k).drop_first() =~= le_bytes(a / 256, (k - 1) as nat));
        assert(le_bytes(b, k).drop_first() =~= le_bytes(b / 256, (k - 1) as nat));
        let p = crate::auth::cbor::pow256((k - 1) as nat);
        assert(a / 256 < p && b / 256 < p) by (nonlinear_arith)
            requires
                a < 256 * p,
                b < 256 * p,
        ;
        lemma_le_bytes_injective(a / 256, b / 256, (k - 1) as nat);
        assert(a == 256 * (a / 256) + a % 256 && b == 256 * (b / 256) + b % 256) by (nonlinear_arith);
        assert(le_bytes(a, k)[0] == (a % 256) as u8);
        assert(le_bytes(b, k)[0] == (b % 256) as u8);
        assert((a % 256) as u8 as nat == a % 256);
        assert((b % 256) as u8 as nat == b % 256);
    } else {
        assert(a == 0 && b == 0);
    }
}

/// Two equal concatenations split at the same point have equal parts.
pub proof fn lemma_concat_cancel<A>(a: Seq<A>, x: Seq<A>, b: Seq<A>, y: Seq<A>)
    requires
        a + x == b + y,
        a.len() == b.len(),
    ensures
        a == b,
        x == y,
{
    assert(a =~= (a + x).subrange(0, a.len() as int));
    assert(b =~= (b + y).subrange(0, b.len() as int));
    assert(x =~= (a + x).subrange(a.len() as int, (a + x).len() as int));
    assert(y =~= (b + y).subrange(b.len() as int, (b + y).len() as int));
}

/// Copy a range of a byte slice into a fresh vector.
pub fn copy_range(bytes: &[u8], start: usize, end: usize) -> (r: Vec<u8>)
    requires
        start <= end <= bytes.len(),
    ensures
        r@ == bytes@.subrange(start as int, end as int),
{
    let mut out: Vec<u8> = Vec::new();
    let mut i: usize = start;
    while i < end
        invariant
            start <= i <= end,
            end <= bytes.len(),
            out@ == bytes@.subrange(start as int, i as int),
        decreases end - i,
    {
        out.push(bytes[i]);
        assert(bytes@.subrange(start as int, i + 1) =~= bytes@.subrange(start as int, i as int).push(
            bytes@[i as int],
        ));
        i = i + 1;
    }
    out
}

/// Copy a byte slice into a fresh vector.
pub fn to_vec(bytes: &[u8]) -> (r: Vec<u8>)
    ensures
        r@ == bytes@,
{
    let r = copy_range(bytes, 0, bytes.len());
    assert(bytes@.subrange(0, bytes@.len() as int) =~= bytes@);
    r
}

// ---------------------------------------------------------------------------
// Stable sort of (key, payload) pairs by key
// ---------------------------------------------------------------------------

/// Insert `e` into `s` after every element whose key is not greater than
/// `e`'s key (stable insertion).
pub open spec fn insert_by_key(s: Seq<(Seq<u8>, Seq<u8>)>, e: (Seq<u8>, Seq<u8>)) -> Seq<
    (Seq<u8>, Seq<u8>),
>
    decreases s.len(),
{
    if s.len() == 0 {
        seq![e]
    } else if lex_lt(e.0, s.last().0) {
        insert_by_key(s.drop_last(), e).push(s.last())
    } else {
        s.push(e)
    }
}

/// The stable sort of `s` by key (lexicographic order on the keys).
pub open spec fn sort_by_key(s: Seq<(Seq<u8>, Seq<u8>)>) -> Seq<(Seq<u8>, Seq<u8>)>
    decreases s.len(),
{
    if s.len() == 0 {
        s
    } else {
        insert_by_key(sort_by_key(s.drop_last()), s.last())
    }
}

/// Keys strictly increasing.
pub open spec fn keys_strictly_sorted(s: Seq<(Seq<u8>, Seq<u8>)>) -> bool {
    forall|i: int, j: int| 0 <= i < j < s.len() ==> lex_lt(#[trigger] s[i].0, #[trigger] s[j].0)
}

/// Concatenation of every key followed by its payload.
pub open spec fn flatten_pairs(s: Seq<(Seq<u8>, Seq<u8>)>) -> Seq<u8>
    decreases s.len(),
{
    if s.len() == 0 {
        Seq::empty()
    } else {
        flatten_pairs(s.drop_last()) + s.last().0 + s.last().1
    }
}

pub proof fn lemma_sort_of_sorted(s: Seq<(Seq<u8>, Seq<u8>)>)
    requires
        keys_strictly_sorted(s),
    ensures
        sort_by_key(s) == s,
    decreases s.len(),
{
    if s.len() > 0 {
        let d = s.drop_last();
        assert(keys_strictly_sorted(d)) by {
            assert forall|i: int, j: int| 0 <= i < j < d.len() implies lex_lt(d[i].0, d[j].0) by {
                assert(d[i] == s[i] && d[j] == s[j]);
            }
        }
        lemma_sort_of_sorted(d);
        if d.len() > 0 {
            assert(lex_lt(s[d.len() - 1].0, s[s.len() - 1].0));
            lemma_lex_asymmetric(s.last().0, d.last().0);
        }
        assert(d.push(s.last()) =~= s);
    }
}

/// Position at which `insert_by_key` places `e`: all elements before it have
/// keys not greater than `e`'s, all elements from it on have greater keys.
pub proof fn lemma_insert_at(s: Seq<(Seq<u8>, Seq<u8>)>, e: (Seq<u8>, Seq<u8>), p: int)
    requires
        0 <= p <= s.len(),
        forall|j: int| p <= j < s.len() ==> lex_lt(e.0, #[trigger] s[j].0),
        p > 0 ==> !lex_lt(e.0, s[p - 1].0),
    ensures
        insert_by_key(s, e) == s.take(p).push(e) + s.skip(p),
    decreases s.len(),
{
    if s.len() == 0 {
        assert(s.take(p).push(e) + s.skip(p) =~= seq![e]);
    } else if p == s.len() {
        assert(!lex_lt(e.0, s.last().0));
        assert(s.take(p).push(e) + s.skip(p) =~= s.push(e));
    } else {
        assert(lex_lt(e.0, s.last().0));
        let d = s.drop_last();
        assert forall|j: int| p <= j < d.len() implies lex_lt(e.0, #[trigger] d[j].0) by {
            assert(d[j] == s[j]);
        }
        lemma_insert_at(d, e, p);
        assert(d.take(p).push(e) + d.skip(p) + seq![s.last()] =~= s.take(p).push(e) + s.skip(p));
    }
}

pub proof fn lemma_insert_len(s: Seq<(Seq<u8>, Seq<u8>)>, e: (Seq<u8>, Seq<u8>))
    ensures
        insert_by_key(s, e).len() == s.len() + 1,
    decreases s.len(),
{
    if s.len() > 0 && lex_lt(e.0, s.last().0) {
        lemma_insert_len(s.drop_last(), e);
    }
}

pub proof fn lemma_sort_len(s: Seq<(Seq<u8>, Seq<u8>)>)
    ensures
        sort_by_key(s).len() == s.len(),
    decreases s.len(),
{
    if s.len() > 0 {
        lemma_sort_len(s.drop_last());
        lemma_insert_len(sort_by_key(s.drop_last()), s.last());
    }
}

/// Keys pairwise distinct.
pub open spec fn keys_distinct(s: Seq<(Seq<u8>, Seq<u8>)>) -> bool {
    forall|i: int, j: int| 0 <= i < j < s.len() ==> #[trigger] s[i].0 != #[trigger] s[j].0
}

/// Pushing adds exactly the pushed element.
pub proof fn lemma_push_contains(s: Seq<(Seq<u8>, Seq<u8>)>, e: (Seq<u8>, Seq<u8>))
    ensures
        forall|x: (Seq<u8>, Seq<u8>)| #[trigger] s.push(e).contains(x) <==> (s.contains(x) || x
            == e),
{
    assert forall|x: (Seq<u8>, Seq<u8>)| #[trigger] s.push(e).contains(x) <==> (s.contains(x) || x
        == e) by {
        let t = s.push(e);
        if t.contains(x) {
            let k = choose|k: int| 0 <= k < t.len() && t[k] == x;
            if k < s.len() {
                assert(s[k] == x);
            }
        }
        if s.contains(x) {
            let m = choose|m: int| 0 <= m < s.len() && s[m] == x;
            assert(t[m] == x);
        }
        if x == e {
            assert(t[s.len() as int] == x);
        }
    }
}

/// Inserting adds exactly the inserted element.
pub proof fn lemma_insert_contains(s: Seq<(Seq<u8>, Seq<u8>)>, e: (Seq<u8>, Seq<u8>))
    ensures
        forall|x: (Seq<u8>, Seq<u8>)| #[trigger] insert_by_key(s, e).contains(x) <==> (s.contains(x)
            || x == e),
    decreases s.len(),
{
    if s.len() == 0 {
        lemma_push_contains(s, e);
        assert(insert_by_key(s, e) =~= s.push(e));
    } else if lex_lt(e.0, s.last().0) {
        let d = s.drop_last();
        lemma_insert_contains(d, e);
        let r = insert_by_key(d, e);
        lemma_push_contains(r, s.last());
        lemma_push_contains(d, s.last());
        assert(s =~= d.push(s.last()));
    } else {
        lemma_push_contains(s, e);
    }
}

/// Sorting keeps exactly the elements.
pub proof fn lemma_sort_contains(s: Seq<(Seq<u8>, Seq<u8>)>)
    ensures
        forall|x: (Seq<u8>, Seq<u8>)| #[trigger] sort_by_key(s).contains(x) <==> s.contains(x),
    decreases s.len(),
{
    if s.len() > 0 {
        let d = s.drop_last();
        lemma_sort_contains(d);
        lemma_insert_contains(sort_by_key(d), s.last());
        assert forall|x: (Seq<u8>, Seq<u8>)| #[trigger] sort_by_key(s).contains(x) <==> s.contains(
            x,
        ) by {
            if s.contains(x) {
                let m = choose|m: int| 0 <= m < s.len() && s[m] == x;
                if m < d.len() {
                    assert(d[m] == x);
                    assert(d.contains(x));
                }
            }
            if d.contains(x) {
                let m = choose|m: int| 0 <= m < d.len() && d[m] == x;
                assert(s[m] == x);
            }
        }
    }
}

/// Inserting an element whose key is new into a strictly sorted sequence
/// keeps it strictly sorted.
pub proof fn lemma_insert_sorted(s: Seq<(Seq<u8>, Seq<u8>)>, e: (Seq<u8>, Seq<u8>))
    requires
        keys_strictly_sorted(s),
        forall|i: int| 0 <= i < s.len() ==> #[trigger] s[i].0 != e.0,
    ensures
        keys_strictly_sorted(insert_by_key(s, e)),
    decreases s.len(),
{
    if s.len() == 0 {
        assert(insert_by_key(s, e) =~= seq![e]);
    } else if lex_lt(e.0, s.last().0) {
        let d = s.drop_last();
        assert(keys_strictly_sorted(d)) by {
            assert forall|i: int, j: int| 0 <= i < j < d.len() implies lex_lt(d[i].0, d[j].0) by {
                assert(d[i] == s[i] && d[j] == s[j]);
            }
        }
        assert forall|i: int| 0 <= i < d.len() implies #[trigger] d[i].0 != e.0 by {
            assert(d[i] == s[i]);
        }
        lemma_insert_sorted(d, e);
        lemma_insert_contains(d, e);
        lemma_insert_len(d, e);
        let r = insert_by_key(d, e);
        let l = s.last();
        assert forall|i: int| 0 <= i < r.len() implies lex_lt(#[trigger] r[i].0, l.0) by {
            assert(r.contains(r[i]));
            if r[i] != e {
                assert(d.contains(r[i]));
                let m = choose|m: int| 0 <= m < d.len() && d[m] == r[i];
                assert(s[m] == d[m]);
                assert(lex_lt(s[m].0, s[s.len() - 1].0));
            }
        }
        let t = r.push(l);
        assert(insert_by_key(s, e) == t);
        assert forall|i: int, j: int| 0 <= i < j < t.len() implies lex_lt(
            #[trigger] t[i].0,
            #[trigger] t[j].0,
        ) by {
            if j < r.len() {
                assert(t[i] == r[i] && t[j] == r[j]);
            } else {
                assert(t[i] == r[i]);
            }
        }
    } else {
        let l = s.last();
        lemma_lex_total(e.0, l.0);
        assert(s[s.len() - 1].0 != e.0);
        let t = s.push(e);
        assert(insert_by_key(s, e) == t);
        assert forall|i: int, j: int| 0 <= i < j < t.len() implies lex_lt(
            #[trigger] t[i].0,
            #[trigger] t[j].0,
        ) by {
            if j < s.len() {
                assert(t[i] == s[i] && t[j] == s[j]);
            } else {
                assert(t[i] == s[i]);
                if i < s.len() - 1 {
                    assert(lex_lt(s[i].0, s[s.len() - 1].0));
                    lemma_lex_transitive(s[i].0, l.0, e.0);
                }
            }
        }
    }
}

/// Sorting a sequence with distinct keys gives strictly increasing keys.
pub proof fn lemma_sort_strict(s: Seq<(Seq<u8>, Seq<u8>)>)
    requires
        keys_distinct(s),
    ensures
        keys_strictly_sorted(sort_by_key(s)),
    decreases s.len(),
{
    if s.len() > 0 {
        let d = s.drop_last();
        assert(keys_distinct(d)) by {
            assert forall|i: int, j: int| 0 <= i < j < d.len() implies #[trigger] d[i].0
                != #[trigger] d[j].0 by {
                assert(d[i] == s[i] && d[j] == s[j]);
            }
        }
        lemma_sort_strict(d);
        lemma_sort_contains(d);
        let sd = sort_by_key(d);
        assert forall|i: int| 0 <= i < sd.len() implies #[trigger] sd[i].0 != s.last().0 by {
            assert(sd.contains(sd[i]));
            let m = choose|m: int| 0 <= m < d.len() && d[m] == sd[i];
            assert(s[m] == d[m]);
            assert(s[m].0 != s[s.len() - 1].0);
        }
        lemma_insert_sorted(sd, s.last());
    }
}

/// Two sequences with strictly increasing keys and the same elements are
/// equal.
pub proof fn lemma_sorted_unique(s: Seq<(Seq<u8>, Seq<u8>)>, t: Seq<(Seq<u8>, Seq<u8>)>)
    requires
        keys_strictly_sorted(s),
        keys_strictly_sorted(t),
        forall|x: (Seq<u8>, Seq<u8>)|
            #![trigger s.contains(x)]
            #![trigger t.contains(x)]
            s.contains(x) <==> t.contains(x),
    ensures
        s == t,
    decreases s.len() + t.len(),
{
    if s.len() == 0 {
        if t.len() > 0 {
            assert(t.contains(t[0]));
        }
        assert(s =~= t);
    } else if t.len() == 0 {
        assert(s.contains(s[0]));
    } else {
        let a = s.last();
        let b = t.last();
        assert(s.contains(a));
        assert(t.contains(b));
        if a != b {
            let j = choose|j: int| 0 <= j < t.len() && t[j] == a;
            let i = choose|i: int| 0 <= i < s.len() && s[i] == b;
            assert(j < t.len() - 1);
            assert(i < s.len() - 1);
            assert(lex_lt(t[j].0, t[t.len() - 1].0));
            assert(lex_lt(s[i].0, s[s.len() - 1].0));
            lemma_lex_asymmetric(a.0, b.0);
        }
        let sd = s.drop_last();
        let td = t.drop_last();
        assert(keys_strictly_sorted(sd)) by {
            assert forall|i: int, j: int| 0 <= i < j < sd.len() implies lex_lt(sd[i].0, sd[j].0) by {
                assert(sd[i] == s[i] && sd[j] == s[j]);
            }
        }
        assert(keys_strictly_sorted(td)) by {
            assert forall|i: int, j: int| 0 <= i < j < td.len() implies lex_lt(td[i].0, td[j].0) by {
                assert(td[i] == t[i] && td[j] == t[j]);
            }
        }
        assert forall|x: (Seq<u8>, Seq<u8>)|
            #![trigger sd.contains(x)]
            #![trigger td.contains(x)]
            sd.contains(x) <==> td.contains(x) by {
            if sd.contains(x) {
                let i = choose|i: int| 0 <= i < sd.len() && sd[i] == x;
                assert(s[i] == x);
                assert(s.contains(x));
                assert(lex_lt(s[i].0, s[s.len() - 1].0));
                lemma_lex_irreflexive(x.0);
                let j = choose|j: int| 0 <= j < t.len() && t[j] == x;
                assert(j != t.len() - 1);
                assert(td[j] == x);
            }
            if td.contains(x) {
                let j = choose|j: int| 0 <= j < td.len() && td[j] == x;
                assert(t[j] == x);
                assert(t.contains(x));
                assert(lex_lt(t[j].0, t[t.len() - 1].0));
                lemma_lex_irreflexive(x.0);
                let i = choose|i: int| 0 <= i < s.len() && s[i] == x;
                assert(i != s.len() - 1);
                assert(sd[i] == x);
            }
        }
        lemma_sorted_unique(sd, td);
        assert(s =~= sd.push(a));
        assert(t =~= td.push(b));
    }
}

/// The stable sort of a vector of (key, payload) pairs by key.
pub fn sort_pairs(pairs: Vec<(Vec<u8>, Vec<u8>)>) -> (r: Vec<(Vec<u8>, Vec<u8>)>)
    ensures
        r.len() == pairs.len(),
        forall|i: int|
            0 <= i < r.len() ==> (#[trigger] r@[i].0@, r@[i].1@) == sort_by_key(
                pairs_view(pairs@),
            )[i],
{
    let ghost src = pairs_view(pairs@);
    let mut out: Vec<(Vec<u8>, Vec<u8>)> = Vec::new();
    let ghost orig = pairs@;
    let mut pairs = pairs;
    let mut rest: Vec<(Vec<u8>, Vec<u8>)> = Vec::new();
    // Move the elements into `rest` in reverse order, so that popping from
    // `rest` yields them front to back.
    while pairs.len() > 0
        invariant
            pairs.len() + rest.len() == orig.len(),
            forall|j: int| 0 <= j < pairs.len() ==> #[trigger] pairs@[j] == orig[j],
            forall|j: int|
                0 <= j < rest.len() ==> #[trigger] rest@[j] == orig[orig.len() - 1 - j],
        decreases pairs.len(),
    {
        let x = pairs.pop().unwrap();
        rest.push(x);
    }
    let ghost mut taken: int = 0;
    while rest.len() > 0
        invariant
            src == pairs_view(orig),
            0 <= taken <= orig.len(),
            rest.len() == orig.len() - taken,
            forall|j: int|
                0 <= j < rest.len() ==> #[trigger] rest@[j] == orig[orig.len() - 1 - j],
            out.len() == taken,
            pairs_view(out@) == sort_by_key(src.take(taken)),
        decreases rest.len(),
    {
        let e = rest.pop().unwrap();
        proof {
            assert(e == orig[taken]);
        }
        let ghost ge = (e.0@, e.1@);
        let ghost before = pairs_view(out@);
        let mut p: usize = out.len();
        while p > 0 && lex_less(e.0.as_slice(), out[p - 1].0.as_slice())
            invariant
                p <= out.len(),
                before == pairs_view(out@),
                ge == (e.0@, e.1@),
                forall|j: int| p <= j < out.len() ==> lex_lt(ge.0, #[trigger] before[j].0),
            decreases p,
        {
            p = p - 1;
        }
        proof {
            if p > 0 {
                assert(!lex_lt(ge.0, before[p - 1].0));
            }
            lemma_insert_at(before, ge, p as int);
        }
        out.insert(p, e);
        proof {
            assert(src.take(taken + 1).drop_last() =~= src.take(taken));
            assert(src.take(taken + 1).last() == ge);
            assert(pairs_view(out@) =~= before.take(p as int).push(ge) + before.skip(p as int));
            taken = taken + 1;
        }
    }
    assert(src.take(taken) =~= src);
    proof {
        assert forall|i: int| 0 <= i < out.len() implies (#[trigger] out@[i].0@, out@[i].1@)
            == sort_by_key(pairs_view(orig))[i] by {
            assert(pairs_view(out@)[i] == (out@[i].0@, out@[i].1@));
        }
    }
    out
}

/// The byte-level view of a sequence of (key, payload) vector pairs.
pub open spec fn pairs_view(s: Seq<(Vec<u8>, Vec<u8>)>) -> Seq<(Seq<u8>, Seq<u8>)> {
    s.map_values(|p: (Vec<u8>, Vec<u8>)| (p.0@, p.1@))
}

} // verus!
