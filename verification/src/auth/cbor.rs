//! Minimal **canonical (deterministic) CBOR** codec for the subset the
//! authentication protocol uses: unsigned integers, byte strings, text
//! strings, definite-length arrays, and text-keyed maps.
//!
//! Encoding follows the deterministic rules of RFC 8949 §4.2.1: integers and
//! lengths in their smallest form, definite lengths only, and map keys sorted
//! by the lexicographic order of their encoded bytes. Decoding is strict: it
//! accepts exactly the canonical encodings (`canonical` below) and rejects
//! non-minimal heads, unsorted or duplicated map keys, unsupported major
//! types, invalid UTF-8, truncation and trailing bytes.

use vstd::prelude::*;
use vstd::utf8::*;

use crate::auth::error::{AuthError, Fault};
use crate::seqs::{
    append_bytes, copy_range, flatten_pairs, insert_by_key, keys_distinct, keys_strictly_sorted, lemma_sort_contains,
    lemma_sort_len, lemma_sort_of_sorted, lemma_sort_strict, lemma_sorted_unique, lex_lt,
    pairs_view, sort_by_key, sort_pairs,
};

verus! {

broadcast use {
    vstd::std_specs::vec::group_vec_axioms,
    vstd::seq::group_seq_axioms,
    vstd::slice::group_slice_axioms,
};

/// A CBOR value in the supported subset.
#[derive(Debug, PartialEq, Eq)]
pub enum Value {
    Uint(u64),
    Bytes(Vec<u8>),
    Text(String),
    Array(Vec<Value>),
    /// Map with text keys. Stored in the given order; canonical order is
    /// applied on encode and enforced on decode.
    TextMap(Vec<(String, Value)>),
}

/// The mathematical model of a [`Value`].
pub enum SpecValue {
    Uint(u64),
    Bytes(Seq<u8>),
    Text(Seq<char>),
    Array(Seq<SpecValue>),
    TextMap(Seq<(Seq<char>, SpecValue)>),
}

pub open spec fn value_view(v: Value) -> SpecValue
    decreases v,
{
    match v {
        Value::Uint(n) => SpecValue::Uint(n),
        Value::Bytes(b) => SpecValue::Bytes(b@),
        Value::Text(s) => SpecValue::Text(s@),
        Value::Array(items) => SpecValue::Array(items_view(items@)),
        Value::TextMap(entries) => SpecValue::TextMap(entries_view(entries@)),
    }
}

pub open spec fn items_view(s: Seq<Value>) -> Seq<SpecValue>
    decreases s,
{
    if s.len() == 0 {
        Seq::empty()
    } else {
        items_view(s.drop_last()).push(value_view(s.last()))
    }
}

pub open spec fn entries_view(s: Seq<(String, Value)>) -> Seq<(Seq<char>, SpecValue)>
    decreases s,
{
    if s.len() == 0 {
        Seq::empty()
    } else {
        entries_view(s.drop_last()).push((s.last().0@, value_view(s.last().1)))
    }
}

impl View for Value {
    type V = SpecValue;

    open spec fn view(&self) -> SpecValue {
        value_view(*self)
    }
}

// ---------------------------------------------------------------------------
// Specification of the encoding
// ---------------------------------------------------------------------------

pub open spec fn pow256(k: nat) -> nat
    decreases k,
{
    if k == 0 {
        1
    } else {
        256 * pow256((k - 1) as nat)
    }
}

/// `n` as `k` big-endian bytes (the low `k` bytes of `n`).
pub open spec fn be_bytes(n: nat, k: nat) -> Seq<u8>
    decreases k,
{
    if k == 0 {
        Seq::empty()
    } else {
        be_bytes(n / 256, (k - 1) as nat).push((n % 256) as u8)
    }
}

/// The number whose big-endian bytes are `s`.
pub open spec fn be_value(s: Seq<u8>) -> nat
    decreases s.len(),
{
    if s.len() == 0 {
        0
    } else {
        be_value(s.drop_last()) * 256 + s.last() as nat
    }
}

/// A CBOR head: the major type in the high three bits of the first byte and
/// the argument `n` in its smallest form.
pub open spec fn head(major: u8, n: nat) -> Seq<u8> {
    let mt = major as nat * 32;
    if n < 24 {
        seq![(mt + n) as u8]
    } else if n < 0x100 {
        seq![(mt + 24) as u8] + be_bytes(n, 1)
    } else if n < 0x10000 {
        seq![(mt + 25) as u8] + be_bytes(n, 2)
    } else if n < 0x1_0000_0000 {
        seq![(mt + 26) as u8] + be_bytes(n, 4)
    } else {
        seq![(mt + 27) as u8] + be_bytes(n, 8)
    }
}

/// The encoding of a text string (also the encoding of a map key).
pub open spec fn text_enc(t: Seq<char>) -> Seq<u8> {
    head(3, encode_utf8(t).len()) + encode_utf8(t)
}

/// The canonical encoding of a value.
pub open spec fn enc(v: SpecValue) -> Seq<u8>
    decreases v,
{
    match v {
        SpecValue::Uint(n) => head(0, n as nat),
        SpecValue::Bytes(b) => head(2, b.len()) + b,
        SpecValue::Text(t) => text_enc(t),
        SpecValue::Array(items) => head(4, items.len()) + enc_items(items),
        SpecValue::TextMap(entries) => head(5, entries.len()) + flatten_pairs(
            sort_by_key(entry_pairs(entries)),
        ),
    }
}

/// Concatenated encodings of a sequence of values.
pub open spec fn enc_items(items: Seq<SpecValue>) -> Seq<u8>
    decreases items,
{
    if items.len() == 0 {
        Seq::empty()
    } else {
        enc_items(items.drop_last()) + enc(items.last())
    }
}

/// Each map entry as (encoded key, encoded value).
pub open spec fn entry_pairs(entries: Seq<(Seq<char>, SpecValue)>) -> Seq<(Seq<u8>, Seq<u8>)>
    decreases entries,
{
    if entries.len() == 0 {
        Seq::empty()
    } else {
        entry_pairs(entries.drop_last()).push(
            (text_enc(entries.last().0), enc(entries.last().1)),
        )
    }
}

pub open spec fn below_2_64(n: nat) -> bool {
    n < 0x1_0000_0000_0000_0000
}

/// Map keys strictly increasing in the order of their encodings.
pub open spec fn keys_canonical(entries: Seq<(Seq<char>, SpecValue)>) -> bool {
    forall|i: int, j: int|
        0 <= i < j < entries.len() ==> lex_lt(
            text_enc(#[trigger] entries[i].0),
            text_enc(#[trigger] entries[j].0),
        )
}

/// The values that the decoder can produce: lengths fit in 64 bits and map
/// keys are strictly increasing in encoded order (hence distinct).
pub open spec fn canonical(v: SpecValue) -> bool
    decreases v,
{
    match v {
        SpecValue::Uint(_) => true,
        SpecValue::Bytes(b) => below_2_64(b.len()),
        SpecValue::Text(t) => below_2_64(encode_utf8(t).len()),
        SpecValue::Array(items) => below_2_64(items.len()) && items_canonical(items),
        SpecValue::TextMap(entries) => below_2_64(entries.len()) && entries_canonical(entries)
            && keys_canonical(entries),
    }
}

pub open spec fn items_canonical(items: Seq<SpecValue>) -> bool
    decreases items,
{
    if items.len() == 0 {
        true
    } else {
        items_canonical(items.drop_last()) && canonical(items.last())
    }
}

pub open spec fn entries_canonical(entries: Seq<(Seq<char>, SpecValue)>) -> bool
    decreases entries,
{
    if entries.len() == 0 {
        true
    } else {
        entries_canonical(entries.drop_last()) && canonical(entries.last().1) && below_2_64(
            encode_utf8(entries.last().0).len(),
        )
    }
}

/// `s` occurs in `data` at position `pos`.
pub open spec fn encodes_at(data: Seq<u8>, pos: int, s: Seq<u8>) -> bool {
    0 <= pos && pos + s.len() <= data.len() && data.subrange(pos, pos + s.len()) == s
}

// ---------------------------------------------------------------------------
// Lemmas about the model
// ---------------------------------------------------------------------------

pub proof fn lemma_items_view(s: Seq<Value>)
    ensures
        items_view(s).len() == s.len(),
        forall|i: int| 0 <= i < s.len() ==> #[trigger] items_view(s)[i] == value_view(s[i]),
    decreases s.len(),
{
    if s.len() > 0 {
        lemma_items_view(s.drop_last());
        assert forall|i: int| 0 <= i < s.len() implies #[trigger] items_view(s)[i] == value_view(
            s[i],
        ) by {
            if i < s.len() - 1 {
                assert(items_view(s)[i] == items_view(s.drop_last())[i]);
                assert(s.drop_last()[i] == s[i]);
            }
        }
    }
}

pub proof fn lemma_entries_view(s: Seq<(String, Value)>)
    ensures
        entries_view(s).len() == s.len(),
        forall|i: int|
            0 <= i < s.len() ==> #[trigger] entries_view(s)[i] == (s[i].0@, value_view(s[i].1)),
    decreases s.len(),
{
    if s.len() > 0 {
        lemma_entries_view(s.drop_last());
        assert forall|i: int| 0 <= i < s.len() implies #[trigger] entries_view(s)[i] == (
            s[i].0@,
            value_view(s[i].1),
        ) by {
            if i < s.len() - 1 {
                assert(entries_view(s)[i] == entries_view(s.drop_last())[i]);
                assert(s.drop_last()[i] == s[i]);
            }
        }
    }
}

pub proof fn lemma_entry_pairs(entries: Seq<(Seq<char>, SpecValue)>)
    ensures
        entry_pairs(entries).len() == entries.len(),
        forall|i: int|
            0 <= i < entries.len() ==> #[trigger] entry_pairs(entries)[i] == (
                text_enc(entries[i].0),
                enc(entries[i].1),
            ),
    decreases entries.len(),
{
    if entries.len() > 0 {
        lemma_entry_pairs(entries.drop_last());
        assert forall|i: int| 0 <= i < entries.len() implies #[trigger] entry_pairs(entries)[i] == (
            text_enc(entries[i].0),
            enc(entries[i].1),
        ) by {
            if i < entries.len() - 1 {
                assert(entry_pairs(entries)[i] == entry_pairs(entries.drop_last())[i]);
                assert(entries.drop_last()[i] == entries[i]);
            }
        }
    }
}

pub proof fn lemma_items_canonical(items: Seq<SpecValue>)
    ensures
        items_canonical(items) <==> forall|i: int|
            0 <= i < items.len() ==> canonical(#[trigger] items[i]),
    decreases items.len(),
{
    if items.len() > 0 {
        lemma_items_canonical(items.drop_last());
        if items_canonical(items) {
            assert forall|i: int| 0 <= i < items.len() implies canonical(#[trigger] items[i]) by {
                if i < items.len() - 1 {
                    assert(items.drop_last()[i] == items[i]);
                }
            }
        }
        if forall|i: int| 0 <= i < items.len() ==> canonical(#[trigger] items[i]) {
            assert forall|i: int| 0 <= i < items.drop_last().len() implies canonical(
                #[trigger] items.drop_last()[i],
            ) by {
                assert(items.drop_last()[i] == items[i]);
            }
            assert(canonical(items[items.len() - 1]));
        }
    }
}

pub proof fn lemma_entries_canonical(entries: Seq<(Seq<char>, SpecValue)>)
    ensures
        entries_canonical(entries) <==> forall|i: int|
            0 <= i < entries.len() ==> canonical(#[trigger] entries[i].1) && below_2_64(
                encode_utf8(entries[i].0).len(),
            ),
    decreases entries.len(),
{
    if entries.len() > 0 {
        lemma_entries_canonical(entries.drop_last());
        if entries_canonical(entries) {
            assert forall|i: int| 0 <= i < entries.len() implies canonical(
                #[trigger] entries[i].1,
            ) && below_2_64(encode_utf8(entries[i].0).len()) by {
                if i < entries.len() - 1 {
                    assert(entries.drop_last()[i] == entries[i]);
                    assert(canonical(entries.drop_last()[i].1));
                }
            }
        }
        if forall|i: int|
            0 <= i < entries.len() ==> canonical(#[trigger] entries[i].1) && below_2_64(
                encode_utf8(entries[i].0).len(),
            ) {
            assert forall|i: int| 0 <= i < entries.drop_last().len() implies canonical(
                #[trigger] entries.drop_last()[i].1,
            ) && below_2_64(encode_utf8(entries.drop_last()[i].0).len()) by {
                assert(entries.drop_last()[i] == entries[i]);
            }
            assert(canonical(entries[entries.len() - 1].1));
        }
    }
}

pub proof fn lemma_be_bytes_len(n: nat, k: nat)
    ensures
        be_bytes(n, k).len() == k,
    decreases k,
{
    if k > 0 {
        lemma_be_bytes_len(n / 256, (k - 1) as nat);
    }
}

pub proof fn lemma_pow256_pos(k: nat)
    ensures
        pow256(k) >= 1,
    decreases k,
{
    if k > 0 {
        lemma_pow256_pos((k - 1) as nat);
    }
}

pub proof fn lemma_be_value_of_bytes(n: nat, k: nat)
    requires
        n < pow256(k),
    ensures
        be_value(be_bytes(n, k)) == n,
    decreases k,
{
    if k > 0 {
        let q = n / 256;
        assert(q < pow256((k - 1) as nat)) by {
            assert(n < 256 * pow256((k - 1) as nat));
        }
        lemma_be_value_of_bytes(q, (k - 1) as nat);
        let s = be_bytes(n, k);
        assert(s.drop_last() =~= be_bytes(q, (k - 1) as nat));
        assert(n == q * 256 + n % 256);
    }
}

pub proof fn lemma_be_bytes_of_value(s: Seq<u8>)
    ensures
        be_bytes(be_value(s), s.len()) == s,
        be_value(s) < pow256(s.len()),
    decreases s.len(),
{
    if s.len() > 0 {
        let d = s.drop_last();
        lemma_be_bytes_of_value(d);
        let v = be_value(s);
        assert(v == be_value(d) * 256 + s.last());
        assert(v / 256 == be_value(d));
        assert(v % 256 == s.last() as nat);
        assert(be_bytes(v, s.len()) =~= be_bytes(be_value(d), d.len()).push(s.last()));
        assert(s =~= d.push(s.last()));
    }
}

pub proof fn lemma_encodes_at_concat(data: Seq<u8>, pos: int, a: Seq<u8>, b: Seq<u8>)
    ensures
        encodes_at(data, pos, a + b) <==> encodes_at(data, pos, a) && encodes_at(
            data,
            pos + a.len(),
            b,
        ),
{
    if encodes_at(data, pos, a + b) {
        assert(data.subrange(pos, pos + a.len()) =~= (a + b).subrange(0, a.len() as int));
        assert(data.subrange(pos + a.len(), pos + a.len() + b.len()) =~= (a + b).subrange(
            a.len() as int,
            (a.len() + b.len()) as int,
        ));
        assert((a + b).subrange(0, a.len() as int) =~= a);
        assert((a + b).subrange(a.len() as int, (a.len() + b.len()) as int) =~= b);
    }
    if encodes_at(data, pos, a) && encodes_at(data, pos + a.len(), b) {
        assert(data.subrange(pos, pos + a.len() + b.len()) =~= data.subrange(pos, pos + a.len())
            + data.subrange(pos + a.len(), pos + a.len() + b.len()));
    }
}

pub proof fn lemma_head_len(major: u8, n: nat)
    ensures
        1 <= head(major, n).len() <= 9,
{
    lemma_be_bytes_len(n, 1);
    lemma_be_bytes_len(n, 2);
    lemma_be_bytes_len(n, 4);
    lemma_be_bytes_len(n, 8);
}

/// The major type of a value's encoding.
pub open spec fn major_of(v: SpecValue) -> u8 {
    match v {
        SpecValue::Uint(_) => 0,
        SpecValue::Bytes(_) => 2,
        SpecValue::Text(_) => 3,
        SpecValue::Array(_) => 4,
        SpecValue::TextMap(_) => 5,
    }
}

/// The argument of a value's head: the integer, a length, or a count.
pub open spec fn count_of(v: SpecValue) -> nat {
    match v {
        SpecValue::Uint(n) => n as nat,
        SpecValue::Bytes(b) => b.len(),
        SpecValue::Text(t) => encode_utf8(t).len(),
        SpecValue::Array(items) => items.len(),
        SpecValue::TextMap(entries) => entries.len(),
    }
}

/// What follows the head in a canonical value's encoding.
pub open spec fn payload_of(v: SpecValue) -> Seq<u8> {
    match v {
        SpecValue::Uint(_) => Seq::empty(),
        SpecValue::Bytes(b) => b,
        SpecValue::Text(t) => encode_utf8(t),
        SpecValue::Array(items) => enc_items(items),
        SpecValue::TextMap(entries) => flatten_pairs(entry_pairs(entries)),
    }
}

/// A canonical value is encoded at `pos` in `data`.
pub open spec fn value_at(data: Seq<u8>, pos: int, v: SpecValue) -> bool {
    canonical(v) && encodes_at(data, pos, enc(v))
}

pub proof fn lemma_pow256_values()
    ensures
        pow256(1) == 0x100,
        pow256(2) == 0x10000,
        pow256(4) == 0x1_0000_0000,
        pow256(8) == 0x1_0000_0000_0000_0000,
{
    assert(pow256(0) == 1);
    assert(pow256(1) == 0x100);
    assert(pow256(2) == 0x10000);
    assert(pow256(3) == 0x1000000);
    assert(pow256(4) == 0x1_0000_0000);
    assert(pow256(5) == 0x100_0000_0000);
    assert(pow256(6) == 0x1_0000_0000_0000);
    assert(pow256(7) == 0x100_0000_0000_0000);
    assert(pow256(8) == 0x1_0000_0000_0000_0000);
}

pub proof fn lemma_keys_sorted(entries: Seq<(Seq<char>, SpecValue)>)
    requires
        keys_canonical(entries),
    ensures
        keys_strictly_sorted(entry_pairs(entries)),
        sort_by_key(entry_pairs(entries)) == entry_pairs(entries),
{
    lemma_entry_pairs(entries);
    let ps = entry_pairs(entries);
    assert forall|i: int, j: int| 0 <= i < j < ps.len() implies lex_lt(
        #[trigger] ps[i].0,
        #[trigger] ps[j].0,
    ) by {
        assert(lex_lt(text_enc(entries[i].0), text_enc(entries[j].0)));
    }
    lemma_sort_of_sorted(ps);
}

pub proof fn lemma_enc_shape(v: SpecValue)
    requires
        canonical(v),
    ensures
        enc(v) == head(major_of(v), count_of(v)) + payload_of(v),
{
    match v {
        SpecValue::Uint(n) => {
            assert(enc(v) =~= head(0, n as nat) + Seq::<u8>::empty());
        },
        SpecValue::TextMap(entries) => {
            lemma_keys_sorted(entries);
        },
        _ => {},
    }
}

pub proof fn lemma_enc_items_split(s: Seq<SpecValue>, j: int)
    requires
        0 <= j <= s.len(),
    ensures
        enc_items(s) == enc_items(s.take(j)) + enc_items(s.skip(j)),
    decreases s.len(),
{
    if j == s.len() {
        assert(s.take(j) =~= s);
        assert(s.skip(j) =~= Seq::<SpecValue>::empty());
        assert(enc_items(s) + enc_items(Seq::<SpecValue>::empty()) =~= enc_items(s));
    } else {
        let d = s.drop_last();
        lemma_enc_items_split(d, j);
        assert(d.take(j) =~= s.take(j));
        assert(s.skip(j).drop_last() =~= d.skip(j));
        assert(s.skip(j).last() == s.last());
        assert(enc_items(s.take(j)) + enc_items(s.skip(j)) =~= enc_items(d.take(j)) + enc_items(
            d.skip(j),
        ) + enc(s.last()));
    }
}

pub proof fn lemma_enc_items_front(s: Seq<SpecValue>)
    requires
        s.len() > 0,
    ensures
        enc_items(s) == enc(s[0]) + enc_items(s.skip(1)),
{
    lemma_enc_items_split(s, 1);
    assert(s.take(1).drop_last() =~= Seq::<SpecValue>::empty());
    assert(s.take(1).last() == s[0]);
    assert(enc_items(Seq::<SpecValue>::empty()) == Seq::<u8>::empty());
    assert(enc_items(s.take(1)) =~= enc(s[0]));
}

pub proof fn lemma_enc_items_push(s: Seq<SpecValue>, j: int)
    requires
        0 <= j < s.len(),
    ensures
        enc_items(s.take(j + 1)) == enc_items(s.take(j)) + enc(s[j]),
{
    assert(s.take(j + 1).drop_last() =~= s.take(j));
}

pub proof fn lemma_flatten_split(s: Seq<(Seq<u8>, Seq<u8>)>, j: int)
    requires
        0 <= j <= s.len(),
    ensures
        flatten_pairs(s) == flatten_pairs(s.take(j)) + flatten_pairs(s.skip(j)),
    decreases s.len(),
{
    if j == s.len() {
        assert(s.take(j) =~= s);
        assert(s.skip(j) =~= Seq::<(Seq<u8>, Seq<u8>)>::empty());
        assert(flatten_pairs(s) + Seq::<u8>::empty() =~= flatten_pairs(s));
    } else {
        let d = s.drop_last();
        lemma_flatten_split(d, j);
        assert(d.take(j) =~= s.take(j));
        assert(s.skip(j).drop_last() =~= d.skip(j));
        assert(s.skip(j).last() == s.last());
        assert(flatten_pairs(s.take(j)) + flatten_pairs(s.skip(j)) =~= flatten_pairs(d.take(j))
            + flatten_pairs(d.skip(j)) + s.last().0 + s.last().1);
    }
}

pub proof fn lemma_entry_pairs_take_skip(e: Seq<(Seq<char>, SpecValue)>, j: int)
    requires
        0 <= j <= e.len(),
    ensures
        entry_pairs(e.take(j)) == entry_pairs(e).take(j),
        entry_pairs(e.skip(j)) == entry_pairs(e).skip(j),
{
    lemma_entry_pairs(e);
    lemma_entry_pairs(e.take(j));
    lemma_entry_pairs(e.skip(j));
    assert(entry_pairs(e.take(j)) =~= entry_pairs(e).take(j));
    assert(entry_pairs(e.skip(j)) =~= entry_pairs(e).skip(j));
}

pub proof fn lemma_entries_front(e: Seq<(Seq<char>, SpecValue)>)
    requires
        e.len() > 0,
    ensures
        flatten_pairs(entry_pairs(e)) == text_enc(e[0].0) + enc(e[0].1) + flatten_pairs(
            entry_pairs(e.skip(1)),
        ),
{
    lemma_entry_pairs(e);
    lemma_entry_pairs_take_skip(e, 1);
    let ps = entry_pairs(e);
    lemma_flatten_split(ps, 1);
    assert(ps.take(1).drop_last() =~= Seq::<(Seq<u8>, Seq<u8>)>::empty());
    assert(ps.take(1).last() == ps[0]);
    assert(flatten_pairs(Seq::<(Seq<u8>, Seq<u8>)>::empty()) == Seq::<u8>::empty());
    assert(flatten_pairs(ps.take(1)) =~= ps[0].0 + ps[0].1);
}

pub proof fn lemma_entries_push(e: Seq<(Seq<char>, SpecValue)>, j: int)
    requires
        0 <= j < e.len(),
    ensures
        flatten_pairs(entry_pairs(e.take(j + 1))) == flatten_pairs(entry_pairs(e.take(j)))
            + text_enc(e[j].0) + enc(e[j].1),
{
    assert(e.take(j + 1).drop_last() =~= e.take(j));
    assert(e.take(j + 1).last() == e[j]);
    let x = (text_enc(e[j].0), enc(e[j].1));
    assert(entry_pairs(e.take(j + 1)) == entry_pairs(e.take(j)).push(x));
    assert(entry_pairs(e.take(j)).push(x).drop_last() =~= entry_pairs(e.take(j)));
    assert(flatten_pairs(entry_pairs(e.take(j + 1))) =~= flatten_pairs(entry_pairs(e.take(j)))
        + x.0 + x.1);
}

pub proof fn lemma_head_unique(data: Seq<u8>, pos: int, m1: u8, n1: nat, m2: u8, n2: nat)
    requires
        m1 < 8,
        m2 < 8,
        below_2_64(n1),
        below_2_64(n2),
        encodes_at(data, pos, head(m1, n1)),
        encodes_at(data, pos, head(m2, n2)),
    ensures
        m1 == m2,
        n1 == n2,
{
    lemma_pow256_values();
    lemma_head_len(m1, n1);
    lemma_head_len(m2, n2);
    let h1 = head(m1, n1);
    let h2 = head(m2, n2);
    assert(data[pos] == h1[0]) by {
        assert(data.subrange(pos, pos + h1.len())[0] == data[pos]);
    }
    assert(data[pos] == h2[0]) by {
        assert(data.subrange(pos, pos + h2.len())[0] == data[pos]);
    }
    let k1: nat = if n1 < 24 {
        0
    } else if n1 < 0x100 {
        1
    } else if n1 < 0x10000 {
        2
    } else if n1 < 0x1_0000_0000 {
        4
    } else {
        8
    };
    let k2: nat = if n2 < 24 {
        0
    } else if n2 < 0x100 {
        1
    } else if n2 < 0x10000 {
        2
    } else if n2 < 0x1_0000_0000 {
        4
    } else {
        8
    };
    assert(m1 == m2 && k1 == k2);
    if k1 > 0 {
        lemma_be_bytes_len(n1, k1);
        lemma_be_bytes_len(n2, k2);
        assert(h1.subrange(1, 1 + k1 as int) =~= be_bytes(n1, k1));
        assert(h2.subrange(1, 1 + k2 as int) =~= be_bytes(n2, k2));
        assert(be_bytes(n1, k1) =~= be_bytes(n2, k2)) by {
            assert forall|i: int| 0 <= i < k1 implies be_bytes(n1, k1)[i] == be_bytes(n2, k2)[i] by {
                assert(h1[1 + i] == data[pos + 1 + i]) by {
                    assert(data.subrange(pos, pos + h1.len())[1 + i] == data[pos + 1 + i]);
                }
                assert(h2[1 + i] == data[pos + 1 + i]) by {
                    assert(data.subrange(pos, pos + h2.len())[1 + i] == data[pos + 1 + i]);
                }
            }
        }
        lemma_be_value_of_bytes(n1, k1);
        lemma_be_value_of_bytes(n2, k2);
    }
}

pub proof fn lemma_bytes_unique(data: Seq<u8>, pos: int, a: Seq<u8>, b: Seq<u8>)
    requires
        a.len() == b.len(),
        encodes_at(data, pos, a),
        encodes_at(data, pos, b),
    ensures
        a == b,
{
}

pub proof fn lemma_text_unique(data: Seq<u8>, pos: int, t1: Seq<char>, t2: Seq<char>)
    requires
        below_2_64(encode_utf8(t1).len()),
        below_2_64(encode_utf8(t2).len()),
        encodes_at(data, pos, text_enc(t1)),
        encodes_at(data, pos, text_enc(t2)),
    ensures
        t1 == t2,
{
    let u1 = encode_utf8(t1);
    let u2 = encode_utf8(t2);
    lemma_encodes_at_concat(data, pos, head(3, u1.len()), u1);
    lemma_encodes_at_concat(data, pos, head(3, u2.len()), u2);
    lemma_head_unique(data, pos, 3, u1.len(), 3, u2.len());
    lemma_bytes_unique(data, pos + head(3, u1.len()).len(), u1, u2);
    encode_utf8_decode_utf8(t1);
    encode_utf8_decode_utf8(t2);
}

/// Canonical encodings are prefix-free: at most one canonical value is
/// encoded at any position.
pub proof fn lemma_value_at_unique(data: Seq<u8>, pos: int, a: SpecValue, b: SpecValue)
    requires
        value_at(data, pos, a),
        value_at(data, pos, b),
    ensures
        a == b,
    decreases a,
{
    lemma_enc_shape(a);
    lemma_enc_shape(b);
    let ha = head(major_of(a), count_of(a));
    let hb = head(major_of(b), count_of(b));
    lemma_encodes_at_concat(data, pos, ha, payload_of(a));
    lemma_encodes_at_concat(data, pos, hb, payload_of(b));
    lemma_head_unique(data, pos, major_of(a), count_of(a), major_of(b), count_of(b));
    let p = pos + ha.len();
    match a {
        SpecValue::Uint(n) => {},
        SpecValue::Bytes(x) => {
            lemma_bytes_unique(data, p, x, b->Bytes_0);
        },
        SpecValue::Text(t) => {
            lemma_bytes_unique(data, p, encode_utf8(t), encode_utf8(b->Text_0));
            encode_utf8_decode_utf8(t);
            encode_utf8_decode_utf8(b->Text_0);
        },
        SpecValue::Array(items) => {
            lemma_items_unique(data, p, a->Array_0, b->Array_0);
        },
        SpecValue::TextMap(entries) => {
            lemma_entries_unique(data, p, a->TextMap_0, b->TextMap_0);
        },
    }
}

pub proof fn lemma_items_unique(data: Seq<u8>, pos: int, ia: Seq<SpecValue>, ib: Seq<SpecValue>)
    requires
        ia.len() == ib.len(),
        items_canonical(ia),
        items_canonical(ib),
        encodes_at(data, pos, enc_items(ia)),
        encodes_at(data, pos, enc_items(ib)),
    ensures
        ia == ib,
    decreases ia,
{
    if ia.len() == 0 {
        assert(ia =~= ib);
    } else {
        lemma_items_canonical(ia);
        lemma_items_canonical(ib);
        lemma_enc_items_front(ia);
        lemma_enc_items_front(ib);
        lemma_encodes_at_concat(data, pos, enc(ia[0]), enc_items(ia.skip(1)));
        lemma_encodes_at_concat(data, pos, enc(ib[0]), enc_items(ib.skip(1)));
        lemma_value_at_unique(data, pos, ia[0], ib[0]);
        lemma_items_canonical(ia.skip(1));
        lemma_items_canonical(ib.skip(1));
        assert forall|i: int| 0 <= i < ia.skip(1).len() implies canonical(
            #[trigger] ia.skip(1)[i],
        ) by {
            assert(ia.skip(1)[i] == ia[i + 1]);
        }
        assert forall|i: int| 0 <= i < ib.skip(1).len() implies canonical(
            #[trigger] ib.skip(1)[i],
        ) by {
            assert(ib.skip(1)[i] == ib[i + 1]);
        }
        lemma_items_unique(data, pos + enc(ia[0]).len(), ia.skip(1), ib.skip(1));
        assert(ia =~= ib) by {
            assert forall|i: int| 0 <= i < ia.len() implies ia[i] == ib[i] by {
                if i > 0 {
                    assert(ia.skip(1)[i - 1] == ia[i]);
                    assert(ib.skip(1)[i - 1] == ib[i]);
                }
            }
        }
    }
}

#[verifier::spinoff_prover]
pub proof fn lemma_entries_unique(
    data: Seq<u8>,
    pos: int,
    ea: Seq<(Seq<char>, SpecValue)>,
    eb: Seq<(Seq<char>, SpecValue)>,
)
    requires
        ea.len() == eb.len(),
        entries_canonical(ea),
        entries_canonical(eb),
        encodes_at(data, pos, flatten_pairs(entry_pairs(ea))),
        encodes_at(data, pos, flatten_pairs(entry_pairs(eb))),
    ensures
        ea == eb,
    decreases ea,
{
    if ea.len() == 0 {
        assert(ea =~= eb);
    } else {
        lemma_entries_canonical(ea);
        lemma_entries_canonical(eb);
        lemma_entries_front(ea);
        lemma_entries_front(eb);
        let ka = text_enc(ea[0].0);
        let kb = text_enc(eb[0].0);
        lemma_encodes_at_concat(data, pos, ka + enc(ea[0].1), flatten_pairs(entry_pairs(ea.skip(1))));
        lemma_encodes_at_concat(data, pos, kb + enc(eb[0].1), flatten_pairs(entry_pairs(eb.skip(1))));
        lemma_encodes_at_concat(data, pos, ka, enc(ea[0].1));
        lemma_encodes_at_concat(data, pos, kb, enc(eb[0].1));
        lemma_text_unique(data, pos, ea[0].0, eb[0].0);
        assert(decreases_to!(ea => ea[0]));
        lemma_value_at_unique(data, pos + ka.len(), ea[0].1, eb[0].1);
        lemma_entries_canonical(ea.skip(1));
        lemma_entries_canonical(eb.skip(1));
        assert forall|i: int| 0 <= i < ea.skip(1).len() implies canonical(
            #[trigger] ea.skip(1)[i].1,
        ) && below_2_64(encode_utf8(ea.skip(1)[i].0).len()) by {
            assert(ea.skip(1)[i] == ea[i + 1]);
        }
        assert forall|i: int| 0 <= i < eb.skip(1).len() implies canonical(
            #[trigger] eb.skip(1)[i].1,
        ) && below_2_64(encode_utf8(eb.skip(1)[i].0).len()) by {
            assert(eb.skip(1)[i] == eb[i + 1]);
        }
        lemma_entries_unique(data, pos + (ka + enc(ea[0].1)).len(), ea.skip(1), eb.skip(1));
        assert(ea =~= eb) by {
            assert forall|i: int| 0 <= i < ea.len() implies ea[i] == eb[i] by {
                if i > 0 {
                    assert(ea.skip(1)[i - 1] == ea[i]);
                    assert(eb.skip(1)[i - 1] == eb[i]);
                }
            }
        }
    }
}

// ---------------------------------------------------------------------------
// Encoding
// ---------------------------------------------------------------------------

/// Push the low `k` bytes of `n`, most significant first.
fn push_be(out: &mut Vec<u8>, n: u64, k: usize)
    ensures
        final(out)@ == old(out)@ + be_bytes(n as nat, k as nat),
    decreases k,
{
    if k > 0 {
        push_be(out, n / 256, k - 1);
        out.push((n % 256) as u8);
        assert(be_bytes(n as nat, k as nat) =~= be_bytes((n / 256) as nat, (k - 1) as nat).push(
            (n % 256) as u8,
        ));
    }
}

/// Encode a CBOR head: major type (high 3 bits) + argument in smallest form.
fn encode_head(major: u8, n: u64, out: &mut Vec<u8>)
    requires
        major < 8,
    ensures
        final(out)@ == old(out)@ + head(major, n as nat),
{
    let mt: u8 = major * 32;
    if n < 24 {
        out.push(mt + n as u8);
        assert(head(major, n as nat) =~= seq![(mt + n) as u8]);
    } else if n <= 0xff {
        out.push(mt + 24);
        push_be(out, n, 1);
    } else if n <= 0xffff {
        out.push(mt + 25);
        push_be(out, n, 2);
    } else if n <= 0xffff_ffff {
        out.push(mt + 26);
        push_be(out, n, 4);
    } else {
        out.push(mt + 27);
        push_be(out, n, 8);
    }
}

/// Append the encoding of a text string.
fn encode_text(s: &str, out: &mut Vec<u8>)
    ensures
        final(out)@ == old(out)@ + text_enc(s@),
{
    let b = s.as_bytes();
    encode_head(3, b.len() as u64, out);
    append_bytes(out, b);
}

fn encode_value(v: &Value, out: &mut Vec<u8>)
    ensures
        final(out)@ == old(out)@ + enc(v@),
    decreases v,
{
    match v {
        Value::Uint(n) => {
            encode_head(0, *n, out);
        },
        Value::Bytes(b) => {
            encode_head(2, b.len() as u64, out);
            append_bytes(out, b.as_slice());
        },
        Value::Text(s) => {
            encode_text(s.as_str(), out);
        },
        Value::Array(items) => {
            proof {
                lemma_items_view(items@);
            }
            let ghost sv = items_view(items@);
            encode_head(4, items.len() as u64, out);
            let ghost base = out@;
            let mut i: usize = 0;
            while i < items.len()
                invariant
                    *v == Value::Array(*items),
                    i <= items.len(),
                    sv == items_view(items@),
                    sv.len() == items.len(),
                    forall|j: int| 0 <= j < items.len() ==> #[trigger] sv[j] == value_view(items@[j]),
                    out@ == base + enc_items(sv.take(i as int)),
                decreases items.len() - i,
            {
                proof {
                    assert((*v)->Array_0 == *items);
                    assert(decreases_to!(*v => (*v)->Array_0));
                    assert(decreases_to!(*items => items@[i as int]));
                    assert(decreases_to!(*v => items@[i as int]));
                }
                encode_value(&items[i], out);
                proof {
                    assert(sv.take(i + 1).drop_last() =~= sv.take(i as int));
                    assert(sv.take(i + 1).last() == sv[i as int]);
                }
                i = i + 1;
            }
            proof {
                assert(sv.take(items.len() as int) =~= sv);
            }
        },
        Value::TextMap(entries) => {
            proof {
                lemma_entries_view(entries@);
                lemma_entry_pairs(entries_view(entries@));
            }
            let ghost se = entries_view(entries@);
            let ghost ps = entry_pairs(se);
            let mut pairs: Vec<(Vec<u8>, Vec<u8>)> = Vec::new();
            let mut i: usize = 0;
            while i < entries.len()
                invariant
                    *v == Value::TextMap(*entries),
                    i <= entries.len(),
                    se == entries_view(entries@),
                    se.len() == entries.len(),
                    forall|j: int|
                        0 <= j < entries.len() ==> #[trigger] se[j] == (
                            entries@[j].0@,
                            value_view(entries@[j].1),
                        ),
                    ps == entry_pairs(se),
                    ps.len() == entries.len(),
                    forall|j: int|
                        0 <= j < entries.len() ==> #[trigger] ps[j] == (
                            text_enc(entries@[j].0@),
                            enc(value_view(entries@[j].1)),
                        ),
                    pairs.len() == i,
                    forall|j: int|
                        0 <= j < i ==> (#[trigger] pairs@[j].0@, pairs@[j].1@) == ps[j],
                decreases entries.len() - i,
            {
                let mut kb: Vec<u8> = Vec::new();
                encode_text(entries[i].0.as_str(), &mut kb);
                let mut vb: Vec<u8> = Vec::new();
                proof {
                    assert((*v)->TextMap_0 == *entries);
                    assert(decreases_to!(*v => (*v)->TextMap_0));
                    assert(decreases_to!(*entries => entries@[i as int]));
                    assert(decreases_to!(entries@[i as int] => entries@[i as int].1));
                    assert(decreases_to!(*v => entries@[i as int].1));
                }
                encode_value(&entries[i].1, &mut vb);
                pairs.push((kb, vb));
                i = i + 1;
            }
            proof {
                assert(pairs_view(pairs@) =~= ps);
            }
            let sorted = sort_pairs(pairs);
            encode_head(5, entries.len() as u64, out);
            let ghost base = out@;
            let ghost ss = sort_by_key(ps);
            proof {
                lemma_sort_len(ps);
            }
            let mut k: usize = 0;
            while k < sorted.len()
                invariant
                    k <= sorted.len(),
                    ss.len() == sorted.len(),
                    forall|j: int|
                        0 <= j < sorted.len() ==> (#[trigger] sorted@[j].0@, sorted@[j].1@)
                            == ss[j],
                    out@ == base + flatten_pairs(ss.take(k as int)),
                decreases sorted.len() - k,
            {
                append_bytes(out, sorted[k].0.as_slice());
                append_bytes(out, sorted[k].1.as_slice());
                proof {
                    assert(ss.take(k + 1).drop_last() =~= ss.take(k as int));
                    assert(ss.take(k + 1).last() == ss[k as int]);
                    assert(ss[k as int] == (sorted@[k as int].0@, sorted@[k as int].1@));
                }
                k = k + 1;
            }
            proof {
                assert(ss.take(sorted.len() as int) =~= ss);
            }
        },
    }
}

impl Value {
    /// Serialize to canonical (deterministic) CBOR bytes.
    pub fn to_bytes(&self) -> (r: Vec<u8>)
        ensures
            r@ == enc(self@),
    {
        let mut out = Vec::new();
        encode_value(self, &mut out);
        assert(out@ =~= enc(self@));
        out
    }
}

// ---------------------------------------------------------------------------
// Decoding
// ---------------------------------------------------------------------------

fn cbor_err(msg: &str) -> (e: AuthError)
    ensures
        e is Cbor,
{
    AuthError::Cbor(msg.to_owned())
}

/// Read `k` big-endian bytes starting at `pos`.
pub(crate) fn read_be(data: &[u8], pos: usize, k: usize) -> (r: u64)
    requires
        k <= 8,
        pos + k <= data@.len(),
    ensures
        r as nat == be_value(data@.subrange(pos as int, pos + k)),
{
    proof {
        lemma_pow256_values();
    }
    let mut acc: u64 = 0;
    let mut i: usize = 0;
    while i < k
        invariant
            k <= 8,
            pos + k <= data@.len(),
            data@.len() == data.len(),
            i <= k,
            acc as nat == be_value(data@.subrange(pos as int, pos + i)),
            acc < pow256(i as nat),
            pow256(8) == 0x1_0000_0000_0000_0000,
        decreases k - i,
    {
        proof {
            lemma_pow256_mono(i as nat + 1, 8);
            assert(data@.subrange(pos as int, pos + i + 1).drop_last() =~= data@.subrange(
                pos as int,
                pos + i,
            ));
        }
        acc = acc * 256 + data[pos + i] as u64;
        i = i + 1;
    }
    acc
}

pub proof fn lemma_pow256_mono(a: nat, b: nat)
    requires
        a <= b,
    ensures
        pow256(a) <= pow256(b),
    decreases b,
{
    if a < b {
        lemma_pow256_mono(a, (b - 1) as nat);
        lemma_pow256_pos((b - 1) as nat);
    }
}

/// Read a head, returning (major, argument, position after the head).
/// Enforces the smallest-form encoding of the argument.
fn read_head(data: &[u8], pos: usize) -> (r: Result<(u8, u64, usize), AuthError>)
    requires
        pos <= data@.len(),
    ensures
        r matches Ok((m, a, p)) ==> m < 8 && p == pos + head(m, a as nat).len() && encodes_at(
            data@,
            pos as int,
            head(m, a as nat),
        ),
        forall|m: u8, a: u64|
            m < 8 && #[trigger] encodes_at(data@, pos as int, head(m, a as nat)) ==> r == Ok::<
                (u8, u64, usize),
                AuthError,
            >((m, a, (pos + head(m, a as nat).len()) as usize)),
        r matches Err(e) ==> e is Cbor,
{
    proof {
        lemma_pow256_values();
    }
    if pos >= data.len() {
        proof {
            assert forall|m: u8, a: u64| m < 8 implies !#[trigger] encodes_at(
                data@,
                pos as int,
                head(m, a as nat),
            ) by {
                lemma_head_len(m, a as nat);
            }
        }
        return Err(cbor_err("unexpected end of input"));
    }
    let first = data[pos];
    let major = first / 32;
    let info = first % 32;
    let p = pos + 1;
    let ghost completeness = forall|m: u8, a: u64|
        m < 8 && #[trigger] encodes_at(data@, pos as int, head(m, a as nat)) ==> {
            &&& m == major
            &&& (a < 24 ==> info == a)
            &&& (24 <= a < 0x100 ==> info == 24 && encodes_at(data@, p as int, be_bytes(a as nat, 1)))
            &&& (0x100 <= a < 0x10000 ==> info == 25 && encodes_at(
                data@,
                p as int,
                be_bytes(a as nat, 2),
            ))
            &&& (0x10000 <= a < 0x1_0000_0000 ==> info == 26 && encodes_at(
                data@,
                p as int,
                be_bytes(a as nat, 4),
            ))
            &&& (0x1_0000_0000 <= a ==> info == 27 && encodes_at(
                data@,
                p as int,
                be_bytes(a as nat, 8),
            ))
        };
    proof {
        assert forall|m: u8, a: u64|
            m < 8 && #[trigger] encodes_at(data@, pos as int, head(m, a as nat)) implies {
            &&& m == major
            &&& (a < 24 ==> info == a)
            &&& (24 <= a < 0x100 ==> info == 24 && encodes_at(data@, p as int, be_bytes(a as nat, 1)))
            &&& (0x100 <= a < 0x10000 ==> info == 25 && encodes_at(
                data@,
                p as int,
                be_bytes(a as nat, 2),
            ))
            &&& (0x10000 <= a < 0x1_0000_0000 ==> info == 26 && encodes_at(
                data@,
                p as int,
                be_bytes(a as nat, 4),
            ))
            &&& (0x1_0000_0000 <= a ==> info == 27 && encodes_at(
                data@,
                p as int,
                be_bytes(a as nat, 8),
            ))
        } by {
            let h = head(m, a as nat);
            lemma_head_len(m, a as nat);
            assert(data@[pos as int] == h[0]) by {
                assert(data@.subrange(pos as int, pos + h.len())[0] == data@[pos as int]);
            }
            if a >= 24 {
                let k: nat = if a < 0x100 {
                    1
                } else if a < 0x10000 {
                    2
                } else if a < 0x1_0000_0000 {
                    4
                } else {
                    8
                };
                lemma_be_bytes_len(a as nat, k);
                lemma_encodes_at_concat(data@, pos as int, h.subrange(0, 1), h.subrange(1, h.len() as int));
                assert(h.subrange(0, 1) + h.subrange(1, h.len() as int) =~= h);
                assert(h.subrange(1, h.len() as int) =~= be_bytes(a as nat, k));
            }
        }
    }
    if info < 24 {
        proof {
            assert(head(major, info as nat) =~= seq![first]);
            assert(data@.subrange(pos as int, pos + 1) =~= seq![first]);
        }
        return Ok((major, info as u64, p));
    }
    if info == 24 {
        if data.len() - p < 1 {
            proof {
                lemma_be_bytes_len(0, 1);
                assert forall|m: u8, a: u64| m < 8 implies !#[trigger] encodes_at(
                    data@,
                    pos as int,
                    head(m, a as nat),
                ) by {
                    lemma_be_bytes_len(a as nat, 1);
                }
            }
            return Err(cbor_err("unexpected end of input"));
        }
        let b = read_be(data, p, 1);
        if b < 24 {
            proof {
                assert forall|m: u8, a: u64| m < 8 implies !#[trigger] encodes_at(
                    data@,
                    pos as int,
                    head(m, a as nat),
                ) by {
                    if encodes_at(data@, pos as int, head(m, a as nat)) {
                        lemma_be_bytes_len(a as nat, 1);
                        lemma_be_value_of_bytes(a as nat, 1);
                    }
                }
            }
            return Err(cbor_err("non-minimal integer (1-byte)"));
        }
        proof {
            lemma_be_bytes_of_value(data@.subrange(p as int, p + 1));
            assert(head(major, b as nat) =~= seq![first] + data@.subrange(p as int, p + 1));
            assert(data@.subrange(pos as int, p + 1) =~= seq![first] + data@.subrange(p as int, p + 1));
            assert forall|m: u8, a: u64| m < 8 && #[trigger] encodes_at(
                data@,
                pos as int,
                head(m, a as nat),
            ) implies a == b by {
                lemma_be_bytes_len(a as nat, 1);
                lemma_be_value_of_bytes(a as nat, 1);
            }
        }
        return Ok((major, b, p + 1));
    }
    if info == 25 {
        if data.len() - p < 2 {
            proof {
                assert forall|m: u8, a: u64| m < 8 implies !#[trigger] encodes_at(
                    data@,
                    pos as int,
                    head(m, a as nat),
                ) by {
                    lemma_be_bytes_len(a as nat, 2);
                }
            }
            return Err(cbor_err("unexpected end of input"));
        }
        let b = read_be(data, p, 2);
        if b <= 0xff {
            proof {
                assert forall|m: u8, a: u64| m < 8 implies !#[trigger] encodes_at(
                    data@,
                    pos as int,
                    head(m, a as nat),
                ) by {
                    if encodes_at(data@, pos as int, head(m, a as nat)) {
                        lemma_be_bytes_len(a as nat, 2);
                        lemma_be_value_of_bytes(a as nat, 2);
                    }
                }
            }
            return Err(cbor_err("non-minimal integer (2-byte)"));
        }
        proof {
            lemma_be_bytes_of_value(data@.subrange(p as int, p + 2));
            assert(head(major, b as nat) =~= seq![first] + data@.subrange(p as int, p + 2));
            assert(data@.subrange(pos as int, p + 2) =~= seq![first] + data@.subrange(p as int, p + 2));
            assert forall|m: u8, a: u64| m < 8 && #[trigger] encodes_at(
                data@,
                pos as int,
                head(m, a as nat),
            ) implies a == b by {
                lemma_be_bytes_len(a as nat, 2);
                lemma_be_value_of_bytes(a as nat, 2);
            }
        }
        return Ok((major, b, p + 2));
    }
    if info == 26 {
        if data.len() - p < 4 {
            proof {
                assert forall|m: u8, a: u64| m < 8 implies !#[trigger] encodes_at(
                    data@,
                    pos as int,
                    head(m, a as nat),
                ) by {
                    lemma_be_bytes_len(a as nat, 4);
                }
            }
            return Err(cbor_err("unexpected end of input"));
        }
        let b = read_be(data, p, 4);
        if b <= 0xffff {
            proof {
                assert forall|m: u8, a: u64| m < 8 implies !#[trigger] encodes_at(
                    data@,
                    pos as int,
                    head(m, a as nat),
                ) by {
                    if encodes_at(data@, pos as int, head(m, a as nat)) {
                        lemma_be_bytes_len(a as nat, 4);
                        lemma_be_value_of_bytes(a as nat, 4);
                    }
                }
            }
            return Err(cbor_err("non-minimal integer (4-byte)"));
        }
        proof {
            lemma_be_bytes_of_value(data@.subrange(p as int, p + 4));
            assert(head(major, b as nat) =~= seq![first] + data@.subrange(p as int, p + 4));
            assert(data@.subrange(pos as int, p + 4) =~= seq![first] + data@.subrange(p as int, p + 4));
            assert forall|m: u8, a: u64| m < 8 && #[trigger] encodes_at(
                data@,
                pos as int,
                head(m, a as nat),
            ) implies a == b by {
                lemma_be_bytes_len(a as nat, 4);
                lemma_be_value_of_bytes(a as nat, 4);
            }
        }
        return Ok((major, b, p + 4));
    }
    if info == 27 {
        if data.len() - p < 8 {
            proof {
                assert forall|m: u8, a: u64| m < 8 implies !#[trigger] encodes_at(
                    data@,
                    pos as int,
                    head(m, a as nat),
                ) by {
                    lemma_be_bytes_len(a as nat, 8);
                }
            }
            return Err(cbor_err("unexpected end of input"));
        }
        let b = read_be(data, p, 8);
        if b <= 0xffff_ffff {
            proof {
                assert forall|m: u8, a: u64| m < 8 implies !#[trigger] encodes_at(
                    data@,
                    pos as int,
                    head(m, a as nat),
                ) by {
                    if encodes_at(data@, pos as int, head(m, a as nat)) {
                        lemma_be_bytes_len(a as nat, 8);
                        lemma_be_value_of_bytes(a as nat, 8);
                    }
                }
            }
            return Err(cbor_err("non-minimal integer (8-byte)"));
        }
        proof {
            lemma_be_bytes_of_value(data@.subrange(p as int, p + 8));
            assert(head(major, b as nat) =~= seq![first] + data@.subrange(p as int, p + 8));
            assert(data@.subrange(pos as int, p + 8) =~= seq![first] + data@.subrange(p as int, p + 8));
            assert forall|m: u8, a: u64| m < 8 && #[trigger] encodes_at(
                data@,
                pos as int,
                head(m, a as nat),
            ) implies a == b by {
                lemma_be_bytes_len(a as nat, 8);
                lemma_be_value_of_bytes(a as nat, 8);
            }
        }
        return Ok((major, b, p + 8));
    }
    Err(cbor_err("indefinite-length or reserved encoding"))
}

pub proof fn lemma_push_unfold(items: Seq<Value>, x: Value)
    ensures
        items_view(items.push(x)) == items_view(items).push(value_view(x)),
        enc_items(items_view(items).push(value_view(x))) == enc_items(items_view(items)) + enc(
            value_view(x),
        ),
        items_canonical(items_view(items).push(value_view(x))) == (items_canonical(
            items_view(items),
        ) && canonical(value_view(x))),
{
    assert(items.push(x).drop_last() =~= items);
    assert(items_view(items).push(value_view(x)).drop_last() =~= items_view(items));
}

pub proof fn lemma_entry_push_unfold(entries: Seq<(String, Value)>, x: (String, Value))
    ensures
        entries_view(entries.push(x)) == entries_view(entries).push((x.0@, value_view(x.1))),
        flatten_pairs(entry_pairs(entries_view(entries).push((x.0@, value_view(x.1)))))
            == flatten_pairs(entry_pairs(entries_view(entries))) + text_enc(x.0@) + enc(
            value_view(x.1),
        ),
        entries_canonical(entries_view(entries).push((x.0@, value_view(x.1)))) == (
        entries_canonical(entries_view(entries)) && canonical(value_view(x.1)) && below_2_64(
            encode_utf8(x.0@).len(),
        )),
{
    assert(entries.push(x).drop_last() =~= entries);
    let ev = entries_view(entries);
    let y = (x.0@, value_view(x.1));
    assert(ev.push(y).drop_last() =~= ev);
    let ps = entry_pairs(ev);
    let z = (text_enc(y.0), enc(y.1));
    assert(entry_pairs(ev.push(y)) == ps.push(z));
    assert(ps.push(z).drop_last() =~= ps);
    assert(flatten_pairs(ps.push(z)) =~= flatten_pairs(ps) + z.0 + z.1);
}

/// Read the items of an array whose head (at `pos`) announced `arg` items.
fn read_array(data: &[u8], pos: usize, p1: usize, arg: u64, Ghost(t): Ghost<SpecValue>) -> (r: Result<(Value, usize), AuthError>)
    requires
        pos < p1 <= data@.len(),
        encodes_at(data@, pos as int, head(4, arg as nat)),
        p1 == pos + head(4, arg as nat).len(),
        value_at(data@, pos as int, t) ==> t is Array && arg as nat == count_of(t) && encodes_at(
            data@,
            p1 as int,
            payload_of(t),
        ),
    ensures
        r matches Ok((v, p)) ==> pos < p <= data@.len() && value_at(data@, pos as int, v@) && p
            == pos + enc(v@).len(),
        value_at(data@, pos as int, t) ==> r is Ok,
        r matches Err(e) ==> e is Cbor,
    decreases data@.len() - pos, 0nat,
{
    let mut items: Vec<Value> = Vec::new();
    let mut cur: usize = p1;
    let mut i: u64 = 0;
    proof {
        assert(items_view(items@) =~= Seq::<SpecValue>::empty());
        assert(data@.subrange(p1 as int, p1 as int) =~= Seq::<u8>::empty());
        if value_at(data@, pos as int, t) {
            assert(t->Array_0.take(0) =~= Seq::<SpecValue>::empty());
        }
    }
    while i < arg
        invariant
            pos < p1 <= cur <= data@.len(),
            data@.len() == data.len(),
            i <= arg,
            items@.len() == i,
            items_canonical(items_view(items@)),
            encodes_at(data@, p1 as int, enc_items(items_view(items@))),
            cur == p1 + enc_items(items_view(items@)).len(),
            encodes_at(data@, pos as int, head(4, arg as nat)),
            p1 == pos + head(4, arg as nat).len(),
            value_at(data@, pos as int, t) ==> {
                &&& t is Array
                &&& arg as nat == t->Array_0.len()
                &&& items_canonical(t->Array_0)
                &&& encodes_at(data@, p1 as int, enc_items(t->Array_0))
                &&& items_view(items@) == t->Array_0.take(i as int)
            },
        decreases arg - i,
    {
        let ghost ti = t->Array_0;
        proof {
            if value_at(data@, pos as int, t) {
                lemma_items_canonical(ti);
                lemma_enc_items_split(ti, i as int);
                lemma_enc_items_front(ti.skip(i as int));
                assert(ti.skip(i as int)[0] == ti[i as int]);
                lemma_encodes_at_concat(
                    data@,
                    p1 as int,
                    enc_items(ti.take(i as int)),
                    enc_items(ti.skip(i as int)),
                );
                lemma_encodes_at_concat(
                    data@,
                    cur as int,
                    enc(ti[i as int]),
                    enc_items(ti.skip(i as int).skip(1)),
                );
                assert(value_at(data@, cur as int, ti[i as int]));
            }
        }
        let (v, p) = match read_value(data, cur) {
            Ok(x) => x,
            Err(e) => {
                return Err(e);
            },
        };
        proof {
            lemma_push_unfold(items@, v);
            lemma_encodes_at_concat(
                data@,
                p1 as int,
                enc_items(items_view(items@)),
                enc(v@),
            );
            if value_at(data@, pos as int, t) {
                lemma_value_at_unique(data@, cur as int, v@, ti[i as int]);
                lemma_enc_items_push(ti, i as int);
                assert(ti.take(i + 1) =~= ti.take(i as int).push(ti[i as int]));
            }
        }
        items.push(v);
        cur = p;
        i = i + 1;
    }
    let ghost iv = items_view(items@);
    proof {
        lemma_items_view(items@);
        assert(iv.len() == arg as nat);
    }
    let v = Value::Array(items);
    proof {
        lemma_encodes_at_concat(data@, pos as int, head(4, arg as nat), enc_items(iv));
    }
    return Ok((v, cur));
}

/// Read a map key (a text string) at `pos`, returning the key, its encoded
/// bytes, and the position after it.
fn read_key(data: &[u8], pos: usize, Ghost(tk): Ghost<Seq<char>>) -> (r: Result<
    (String, Vec<u8>, usize),
    AuthError,
>)
    requires
        pos <= data@.len(),
    ensures
        r matches Ok((key, enc_key, p)) ==> {
            &&& enc_key@ == text_enc(key@)
            &&& encodes_at(data@, pos as int, enc_key@)
            &&& p == pos + enc_key@.len()
            &&& below_2_64(encode_utf8(key@).len())
        },
        below_2_64(encode_utf8(tk).len()) && encodes_at(data@, pos as int, text_enc(tk)) ==> (r matches Ok(
            (key, _, _),
        ) && key@ == tk),
        r matches Err(e) ==> e is Cbor,
{
    let ghost ut = encode_utf8(tk);
    let ghost want = below_2_64(ut.len()) && encodes_at(data@, pos as int, text_enc(tk));
    proof {
        if want {
            lemma_encodes_at_concat(data@, pos as int, head(3, ut.len()), ut);
            let a = ut.len() as u64;
            assert(a as nat == ut.len());
            assert(encodes_at(data@, pos as int, head(3, a as nat)));
        }
    }
    let (km, ka, kp) = match read_head(data, pos) {
        Ok(x) => x,
        Err(e) => {
            return Err(e);
        },
    };
    proof {
        lemma_head_len(km, ka as nat);
    }
    if km != 3 {
        return Err(cbor_err("map key must be a text string"));
    }
    if ka > (data.len() - kp) as u64 {
        return Err(cbor_err("unexpected end of input"));
    }
    let kend = kp + ka as usize;
    let kb = copy_range(data, kp, kend);
    let ks = match crate::foreign::text::str_from_utf8(kb.as_slice()) {
        Some(s) => s,
        None => {
            proof {
                if want {
                    encode_utf8_valid_utf8(tk);
                    assert(kb@ =~= ut);
                }
            }
            return Err(cbor_err("invalid utf-8 in map key"));
        },
    };
    let key = ks.to_owned();
    let enc_key = copy_range(data, pos, kend);
    proof {
        assert(encode_utf8(key@) == kb@);
        assert(enc_key@ =~= head(3, ka as nat) + kb@) by {
            assert(data@.subrange(pos as int, kend as int) =~= data@.subrange(pos as int, kp as int)
                + data@.subrange(kp as int, kend as int));
        }
        if want {
            assert(kb@ =~= ut);
            encode_utf8_decode_utf8(key@);
            encode_utf8_decode_utf8(tk);
        }
    }
    Ok((key, enc_key, kend))
}

/// Read the entries of a map whose head (at `pos`) announced `arg` entries.
fn read_map(data: &[u8], pos: usize, p1: usize, arg: u64, Ghost(t): Ghost<SpecValue>) -> (r: Result<(Value, usize), AuthError>)
    requires
        pos < p1 <= data@.len(),
        encodes_at(data@, pos as int, head(5, arg as nat)),
        p1 == pos + head(5, arg as nat).len(),
        value_at(data@, pos as int, t) ==> t is TextMap && arg as nat == count_of(t) && encodes_at(
            data@,
            p1 as int,
            payload_of(t),
        ),
    ensures
        r matches Ok((v, p)) ==> pos < p <= data@.len() && value_at(data@, pos as int, v@) && p
            == pos + enc(v@).len(),
        value_at(data@, pos as int, t) ==> r is Ok,
        r matches Err(e) ==> e is Cbor,
    decreases data@.len() - pos, 0nat,
{
    let mut entries: Vec<(String, Value)> = Vec::new();
    let mut cur: usize = p1;
    let mut i: u64 = 0;
    let mut prev: Vec<u8> = Vec::new();
    proof {
        assert(entries_view(entries@) =~= Seq::<(Seq<char>, SpecValue)>::empty());
        assert(data@.subrange(p1 as int, p1 as int) =~= Seq::<u8>::empty());
        if value_at(data@, pos as int, t) {
            assert(t->TextMap_0.take(0) =~= Seq::<(Seq<char>, SpecValue)>::empty());
        }
    }
    while i < arg
        invariant
            pos < p1 <= cur <= data@.len(),
            data@.len() == data.len(),
            i <= arg,
            entries@.len() == i,
            entries_canonical(entries_view(entries@)),
            keys_canonical(entries_view(entries@)),
            encodes_at(data@, p1 as int, flatten_pairs(entry_pairs(entries_view(entries@)))),
            cur == p1 + flatten_pairs(entry_pairs(entries_view(entries@))).len(),
            i > 0 ==> prev@ == text_enc(entries_view(entries@).last().0),
            encodes_at(data@, pos as int, head(5, arg as nat)),
            p1 == pos + head(5, arg as nat).len(),
            value_at(data@, pos as int, t) ==> {
                &&& t is TextMap
                &&& arg as nat == t->TextMap_0.len()
                &&& entries_canonical(t->TextMap_0)
                &&& keys_canonical(t->TextMap_0)
                &&& encodes_at(data@, p1 as int, flatten_pairs(entry_pairs(t->TextMap_0)))
                &&& entries_view(entries@) == t->TextMap_0.take(i as int)
            },
        decreases arg - i,
    {
        let ghost te = t->TextMap_0;
        let ghost ev = entries_view(entries@);
        proof {
            lemma_entries_view(entries@);
            if value_at(data@, pos as int, t) {
                lemma_entries_canonical(te);
                lemma_entry_pairs(te);
                lemma_entry_pairs_take_skip(te, i as int);
                lemma_flatten_split(entry_pairs(te), i as int);
                lemma_entries_front(te.skip(i as int));
                assert(te.skip(i as int)[0] == te[i as int]);
                lemma_encodes_at_concat(
                    data@,
                    p1 as int,
                    flatten_pairs(entry_pairs(te.take(i as int))),
                    flatten_pairs(entry_pairs(te.skip(i as int))),
                );
                let kt = text_enc(te[i as int].0);
                let ut = encode_utf8(te[i as int].0);
                lemma_encodes_at_concat(
                    data@,
                    cur as int,
                    kt + enc(te[i as int].1),
                    flatten_pairs(entry_pairs(te.skip(i as int).skip(1))),
                );
                lemma_encodes_at_concat(data@, cur as int, kt, enc(te[i as int].1));
            }
        }
        let (key, enc_key, kend) = match read_key(data, cur, Ghost(te[i as int].0)) {
            Ok(x) => x,
            Err(e) => {
                return Err(e);
            },
        };
        proof {
            if value_at(data@, pos as int, t) {
                assert(key@ == te[i as int].0);
                if i > 0 {
                    assert(ev.last() == te[i - 1]);
                    assert(lex_lt(text_enc(te[i - 1].0), text_enc(te[i as int].0)));
                }
            }
        }
        if i > 0 && !crate::seqs::lex_less(prev.as_slice(), enc_key.as_slice()) {
            return Err(cbor_err("map keys not in canonical order or duplicated"));
        }
        proof {
            if value_at(data@, pos as int, t) {
                assert(value_at(data@, kend as int, te[i as int].1));
            }
        }
        let (v, p) = match read_value(data, kend) {
            Ok(x) => x,
            Err(e) => {
                return Err(e);
            },
        };
        let ghost x = (key, v);
        proof {
            lemma_entry_push_unfold(entries@, x);
            let nv = ev.push((key@, v@));
            assert(keys_canonical(nv)) by {
                assert forall|a: int, b: int| 0 <= a < b < nv.len() implies lex_lt(
                    text_enc(#[trigger] nv[a].0),
                    text_enc(#[trigger] nv[b].0),
                ) by {
                    if b == nv.len() - 1 {
                        if a < ev.len() - 1 {
                            assert(lex_lt(text_enc(ev[a].0), text_enc(ev[ev.len() - 1].0)));
                            crate::seqs::lemma_lex_transitive(
                                text_enc(ev[a].0),
                                text_enc(ev[ev.len() - 1].0),
                                text_enc(key@),
                            );
                        }
                    } else {
                        assert(nv[a] == ev[a] && nv[b] == ev[b]);
                    }
                }
            }
            lemma_encodes_at_concat(data@, cur as int, enc_key@, enc(v@));
            lemma_encodes_at_concat(
                data@,
                p1 as int,
                flatten_pairs(entry_pairs(ev)),
                enc_key@ + enc(v@),
            );
            assert(flatten_pairs(entry_pairs(ev)) + (enc_key@ + enc(v@)) =~= flatten_pairs(
                entry_pairs(ev),
            ) + enc_key@ + enc(v@));
            if value_at(data@, pos as int, t) {
                lemma_value_at_unique(data@, kend as int, v@, te[i as int].1);
                assert(te.take(i + 1) =~= te.take(i as int).push(te[i as int]));
            }
            assert(nv.last().0 == key@);
        }
        entries.push((key, v));
        prev = enc_key;
        cur = p;
        i = i + 1;
    }
    let ghost ev = entries_view(entries@);
    proof {
        lemma_entries_view(entries@);
        assert(ev.len() == arg as nat);
    }
    let v = Value::TextMap(entries);
    proof {
        lemma_keys_sorted(ev);
        lemma_encodes_at_concat(
            data@,
            pos as int,
            head(5, arg as nat),
            flatten_pairs(entry_pairs(ev)),
        );
    }
    return Ok((v, cur));
}

/// Read one value starting at `pos`, returning it and the position after it.
fn read_value(data: &[u8], pos: usize) -> (r: Result<(Value, usize), AuthError>)
    requires
        pos <= data@.len(),
    ensures
        r matches Ok((v, p)) ==> pos < p <= data@.len() && value_at(data@, pos as int, v@) && p
            == pos + enc(v@).len(),
        (exists|sv: SpecValue| value_at(data@, pos as int, sv)) ==> r is Ok,
        r matches Err(e) ==> e is Cbor,
    decreases data@.len() - pos, 1nat,
{
    let ghost has = exists|sv: SpecValue| value_at(data@, pos as int, sv);
    let ghost t = choose|sv: SpecValue| value_at(data@, pos as int, sv);
    proof {
        if has {
            lemma_enc_shape(t);
            lemma_encodes_at_concat(
                data@,
                pos as int,
                head(major_of(t), count_of(t)),
                payload_of(t),
            );
            assert(major_of(t) < 8);
            assert(below_2_64(count_of(t))) by {
                lemma_head_len(major_of(t), count_of(t));
                if let SpecValue::Uint(n) = t {
                } else {
                }
            }
            let a = count_of(t) as u64;
            assert(a as nat == count_of(t));
            assert(encodes_at(data@, pos as int, head(major_of(t), a as nat)));
        }
    }
    let (major, arg, p1) = match read_head(data, pos) {
        Ok(x) => x,
        Err(e) => {
            return Err(e);
        },
    };
    proof {
        lemma_head_len(major, arg as nat);
        if has {
            assert(major == major_of(t) && arg as nat == count_of(t));
            assert(encodes_at(data@, p1 as int, payload_of(t)));
        }
    }
    if major == 0 {
        let v = Value::Uint(arg);
        return Ok((v, p1));
    }
    if major == 2 || major == 3 {
        if arg > (data.len() - p1) as u64 {
            return Err(cbor_err("unexpected end of input"));
        }
        let end = p1 + arg as usize;
        let b = copy_range(data, p1, end);
        if major == 2 {
            let v = Value::Bytes(b);
            proof {
                assert(data@.subrange(pos as int, end as int) =~= data@.subrange(
                    pos as int,
                    p1 as int,
                ) + b@);
            }
            return Ok((v, end));
        }
        let s = match crate::foreign::text::str_from_utf8(b.as_slice()) {
            Some(s) => s,
            None => {
                proof {
                    if has {
                        encode_utf8_valid_utf8(t->Text_0);
                        assert(b@ =~= encode_utf8(t->Text_0));
                    }
                }
                return Err(cbor_err("invalid utf-8 in text string"));
            },
        };
        let text = s.to_owned();
        let v = Value::Text(text);
        proof {
            assert(encode_utf8(text@) == b@);
            assert(data@.subrange(pos as int, end as int) =~= data@.subrange(pos as int, p1 as int)
                + b@);
        }
        return Ok((v, end));
    }
    if major == 4 {
        return read_array(data, pos, p1, arg, Ghost(t));
    }
    if major == 5 {
        return read_map(data, pos, p1, arg, Ghost(t));
    }
    Err(cbor_err("unsupported major type"))
}

impl Value {
    /// Parse canonical CBOR bytes, requiring the entire input to be consumed.
    ///
    /// Succeeds exactly when `data` is the encoding of a canonical value, and
    /// then returns that value.
    pub fn from_bytes(data: &[u8]) -> (r: Result<Value, AuthError>)
        ensures
            r matches Ok(v) ==> canonical(v@) && data@ == enc(v@),
            forall|sv: SpecValue|
                canonical(sv) && data@ == #[trigger] enc(sv) ==> (r matches Ok(v) && v@ == sv),
            r matches Ok(v) ==> decode(data@) == Some(v@),
            r is Err <==> decode(data@) is None,
            r matches Err(e) ==> e is Cbor,
    {
        let res = read_value(data, 0);
        proof {
            assert forall|sv: SpecValue| canonical(sv) && data@ == #[trigger] enc(sv) implies value_at(
                data@,
                0,
                sv,
            ) by {
                assert(data@.subrange(0, enc(sv).len() as int) =~= data@);
            }
        }
        match res {
            Ok((v, p)) => {
                if p != data.len() {
                    proof {
                        assert forall|sv: SpecValue| canonical(sv) implies data@ != #[trigger] enc(
                            sv,
                        ) by {
                            if data@ == enc(sv) {
                                assert(data@.subrange(0, enc(sv).len() as int) =~= data@);
                                lemma_value_at_unique(data@, 0, v@, sv);
                            }
                        }
                    }
                    return Err(cbor_err("trailing bytes after top-level value"));
                }
                proof {
                    assert(data@.subrange(0, p as int) =~= data@);
                    law_decode_enc(v@);
                    assert forall|sv: SpecValue| canonical(sv) && data@ == #[trigger] enc(
                        sv,
                    ) implies v@ == sv by {
                        assert(data@.subrange(0, enc(sv).len() as int) =~= data@);
                        lemma_value_at_unique(data@, 0, v@, sv);
                    }
                }
                Ok(v)
            },
            Err(e) => Err(e),
        }
    }
}

/// The encoding of a short ASCII text: one head byte, then the characters.
pub proof fn lemma_short_ascii_text_enc(t: Seq<char>)
    requires
        is_ascii_chars(t),
        t.len() < 24,
    ensures
        text_enc(t).len() == t.len() + 1,
        text_enc(t)[0] == (0x60 + t.len()) as u8,
        forall|i: int| 0 <= i < t.len() ==> #[trigger] text_enc(t)[i + 1] == t[i] as u8,
{
    is_ascii_chars_encode_utf8(t);
    let u = encode_utf8(t);
    assert(head(3, u.len()) =~= seq![(96 + u.len()) as u8]);
    assert forall|i: int| 0 <= i < t.len() implies #[trigger] text_enc(t)[i + 1] == t[i] as u8 by {
        assert(text_enc(t)[i + 1] == u[i]);
    }
}

/// Order of two short ASCII keys: a shorter key sorts first; keys of equal
/// length sort by their first differing character.
pub proof fn lemma_ascii_key_lt(a: Seq<char>, b: Seq<char>, k: int)
    requires
        is_ascii_chars(a),
        is_ascii_chars(b),
        a.len() < 24,
        b.len() < 24,
        (a.len() < b.len() && k == -1) || (a.len() == b.len() && 0 <= k < a.len() && (forall|
            j: int,
        | 0 <= j < k ==> a[j] == b[j]) && (a[k] as u8) < (b[k] as u8)),
    ensures
        lex_lt(text_enc(a), text_enc(b)),
{
    lemma_short_ascii_text_enc(a);
    lemma_short_ascii_text_enc(b);
    if a.len() < b.len() {
        crate::seqs::lemma_lex_first_diff(text_enc(a), text_enc(b), 0);
    } else {
        assert forall|j: int| 0 <= j < k + 1 implies text_enc(a)[j] == text_enc(b)[j] by {
            if j > 0 {
                assert(text_enc(a)[(j - 1) + 1] == a[j - 1] as u8);
                assert(text_enc(b)[(j - 1) + 1] == b[j - 1] as u8);
            }
        }
        assert(text_enc(a)[k + 1] == a[k] as u8);
        assert(text_enc(b)[k + 1] == b[k] as u8);
        crate::seqs::lemma_lex_first_diff(text_enc(a), text_enc(b), k + 1);
    }
}

/// Two canonical values with the same encoding are equal; with the
/// contracts of `to_bytes` and `from_bytes` this makes decoding the exact
/// inverse of encoding on canonical values, and re-encoding a decoded value
/// reproduce the decoded bytes.
pub proof fn law_canonical_encoding_injective(a: SpecValue, b: SpecValue)
    requires
        canonical(a),
        canonical(b),
        enc(a) == enc(b),
    ensures
        a == b,
{
    assert(enc(a).subrange(0, enc(a).len() as int) =~= enc(a));
    lemma_value_at_unique(enc(a), 0, a, b);
}

/// Map keys pairwise distinct.
pub open spec fn entry_keys_distinct(entries: Seq<(Seq<char>, SpecValue)>) -> bool {
    forall|i: int, j: int|
        0 <= i < j < entries.len() ==> #[trigger] entries[i].0 != #[trigger] entries[j].0
}

/// The encoded pairs of a map, entry by entry.
proof fn lemma_entry_pairs_index(entries: Seq<(Seq<char>, SpecValue)>)
    ensures
        entry_pairs(entries).len() == entries.len(),
        forall|i: int|
            0 <= i < entries.len() ==> #[trigger] entry_pairs(entries)[i] == (
                text_enc(entries[i].0),
                enc(entries[i].1),
            ),
    decreases entries.len(),
{
    if entries.len() > 0 {
        let d = entries.drop_last();
        lemma_entry_pairs_index(d);
        assert forall|i: int| 0 <= i < entries.len() implies #[trigger] entry_pairs(entries)[i] == (
            text_enc(entries[i].0),
            enc(entries[i].1),
        ) by {
            if i < d.len() {
                assert(entries[i] == d[i]);
            }
        }
    }
}

/// Distinct texts (whose encodings fit the length field) have distinct
/// encodings.
proof fn lemma_text_enc_injective(a: Seq<char>, b: Seq<char>)
    requires
        below_2_64(encode_utf8(a).len()),
        below_2_64(encode_utf8(b).len()),
        text_enc(a) == text_enc(b),
    ensures
        a == b,
{
    let data = text_enc(a);
    assert(data.subrange(0, data.len() as int) =~= data);
    lemma_text_unique(data, 0, a, b);
}

/// The encoded pairs of a map with distinct keys have distinct keys.
proof fn lemma_entry_pairs_distinct(e: Seq<(Seq<char>, SpecValue)>)
    requires
        entry_keys_distinct(e),
        forall|i: int| 0 <= i < e.len() ==> below_2_64(encode_utf8(#[trigger] e[i].0).len()),
    ensures
        keys_distinct(entry_pairs(e)),
{
    lemma_entry_pairs_index(e);
    let p = entry_pairs(e);
    assert forall|i: int, j: int| 0 <= i < j < p.len() implies #[trigger] p[i].0
        != #[trigger] p[j].0 by {
        if p[i].0 == p[j].0 {
            assert(p[i] == (text_enc(e[i].0), enc(e[i].1)));
            assert(p[j] == (text_enc(e[j].0), enc(e[j].1)));
            lemma_text_enc_injective(e[i].0, e[j].0);
        }
    }
}

/// A map's encoding does not depend on the order in which its entries are
/// given: two entry lists with distinct keys and the same entries encode
/// alike, and the encoding writes the keys in strictly increasing order of
/// their encoded bytes.
pub proof fn law_map_encoding_ignores_entry_order(
    e1: Seq<(Seq<char>, SpecValue)>,
    e2: Seq<(Seq<char>, SpecValue)>,
)
    requires
        entry_keys_distinct(e1),
        entry_keys_distinct(e2),
        forall|i: int| 0 <= i < e1.len() ==> below_2_64(encode_utf8(#[trigger] e1[i].0).len()),
        forall|x: (Seq<char>, SpecValue)|
            #![trigger e1.contains(x)]
            #![trigger e2.contains(x)]
            e1.contains(x) <==> e2.contains(x),
    ensures
        enc(SpecValue::TextMap(e1)) == enc(SpecValue::TextMap(e2)),
        keys_strictly_sorted(sort_by_key(entry_pairs(e1))),
{
    assert forall|i: int| 0 <= i < e2.len() implies below_2_64(
        encode_utf8(#[trigger] e2[i].0).len(),
    ) by {
        assert(e2.contains(e2[i]));
        let j = choose|j: int| 0 <= j < e1.len() && e1[j] == e2[i];
        assert(below_2_64(encode_utf8(e1[j].0).len()));
    }
    lemma_entry_pairs_index(e1);
    lemma_entry_pairs_index(e2);
    lemma_entry_pairs_distinct(e1);
    lemma_entry_pairs_distinct(e2);
    let p1 = entry_pairs(e1);
    let p2 = entry_pairs(e2);
    assert forall|x: (Seq<u8>, Seq<u8>)| #[trigger] p1.contains(x) implies p2.contains(x) by {
        let i = choose|i: int| 0 <= i < p1.len() && p1[i] == x;
        assert(e1.contains(e1[i]));
        let j = choose|j: int| 0 <= j < e2.len() && e2[j] == e1[i];
        assert(p2[j] == x);
    }
    assert forall|x: (Seq<u8>, Seq<u8>)| #[trigger] p2.contains(x) implies p1.contains(x) by {
        let j = choose|j: int| 0 <= j < p2.len() && p2[j] == x;
        assert(e2.contains(e2[j]));
        let i = choose|i: int| 0 <= i < e1.len() && e1[i] == e2[j];
        assert(p1[i] == x);
    }
    lemma_sort_strict(p1);
    lemma_sort_strict(p2);
    lemma_sort_contains(p1);
    lemma_sort_contains(p2);
    lemma_sort_len(p1);
    lemma_sort_len(p2);
    let s1 = sort_by_key(p1);
    let s2 = sort_by_key(p2);
    assert forall|x: (Seq<u8>, Seq<u8>)|
        #![trigger s1.contains(x)]
        #![trigger s2.contains(x)]
        s1.contains(x) <==> s2.contains(x) by {
        if s1.contains(x) {
            assert(p1.contains(x));
        }
        if s2.contains(x) {
            assert(p2.contains(x));
        }
    }
    lemma_sorted_unique(s1, s2);
}

/// Insert an entry after every entry whose encoded key is not greater than
/// its own.
pub open spec fn insert_entry(s: Seq<(Seq<char>, SpecValue)>, e: (Seq<char>, SpecValue)) -> Seq<
    (Seq<char>, SpecValue),
>
    decreases s.len(),
{
    if s.len() == 0 {
        seq![e]
    } else if lex_lt(text_enc(e.0), text_enc(s.last().0)) {
        insert_entry(s.drop_last(), e).push(s.last())
    } else {
        s.push(e)
    }
}

/// The entries in the order of their encoded keys (stable).
pub open spec fn sort_entries(s: Seq<(Seq<char>, SpecValue)>) -> Seq<(Seq<char>, SpecValue)>
    decreases s.len(),
{
    if s.len() == 0 {
        s
    } else {
        insert_entry(sort_entries(s.drop_last()), s.last())
    }
}

/// The value with every map's entries put in the order of their encoded
/// keys, at every depth: what decoding the value's encoding gives.
pub open spec fn canon(v: SpecValue) -> SpecValue
    decreases v,
{
    match v {
        SpecValue::Array(items) => SpecValue::Array(canon_items(items)),
        SpecValue::TextMap(entries) => SpecValue::TextMap(sort_entries(canon_entries(entries))),
        _ => v,
    }
}

pub open spec fn canon_items(items: Seq<SpecValue>) -> Seq<SpecValue>
    decreases items,
{
    if items.len() == 0 {
        items
    } else {
        canon_items(items.drop_last()).push(canon(items.last()))
    }
}

pub open spec fn canon_entries(entries: Seq<(Seq<char>, SpecValue)>) -> Seq<(Seq<char>, SpecValue)>
    decreases entries,
{
    if entries.len() == 0 {
        entries
    } else {
        canon_entries(entries.drop_last()).push((entries.last().0, canon(entries.last().1)))
    }
}

/// Values whose maps, at every depth, have distinct keys, and whose lengths
/// fit the encoding's 64-bit length field.
pub open spec fn sortable(v: SpecValue) -> bool
    decreases v,
{
    match v {
        SpecValue::Uint(_) => true,
        SpecValue::Bytes(b) => below_2_64(b.len()),
        SpecValue::Text(t) => below_2_64(encode_utf8(t).len()),
        SpecValue::Array(items) => below_2_64(items.len()) && sortable_items(items),
        SpecValue::TextMap(entries) => below_2_64(entries.len()) && entry_keys_distinct(entries)
            && sortable_entries(entries),
    }
}

pub open spec fn sortable_items(items: Seq<SpecValue>) -> bool
    decreases items,
{
    if items.len() == 0 {
        true
    } else {
        sortable_items(items.drop_last()) && sortable(items.last())
    }
}

pub open spec fn sortable_entries(entries: Seq<(Seq<char>, SpecValue)>) -> bool
    decreases entries,
{
    if entries.len() == 0 {
        true
    } else {
        sortable_entries(entries.drop_last()) && sortable(entries.last().1) && below_2_64(
            encode_utf8(entries.last().0).len(),
        )
    }
}

/// Inserting an entry adds exactly that entry.
proof fn lemma_insert_entry(s: Seq<(Seq<char>, SpecValue)>, e: (Seq<char>, SpecValue))
    ensures
        insert_entry(s, e).len() == s.len() + 1,
        forall|x: (Seq<char>, SpecValue)| #[trigger] insert_entry(s, e).contains(x) ==> (s.contains(
            x,
        ) || x == e),
        entry_pairs(insert_entry(s, e)) == insert_by_key(entry_pairs(s), (text_enc(e.0), enc(e.1))),
    decreases s.len(),
{
    if s.len() == 0 {
        assert(insert_entry(s, e) =~= s.push(e));
        assert(s.push(e).drop_last() =~= s);
        assert forall|x: (Seq<char>, SpecValue)| #[trigger] insert_entry(s, e).contains(x) implies (
        s.contains(x) || x == e) by {
            assert(insert_entry(s, e)[0] == e);
        }
    } else if lex_lt(text_enc(e.0), text_enc(s.last().0)) {
        let d = s.drop_last();
        lemma_insert_entry(d, e);
        let r = insert_entry(d, e);
        let t = r.push(s.last());
        assert(t.drop_last() =~= r);
        assert(entry_pairs(s).drop_last() == entry_pairs(d)) by {
            assert(s.drop_last() =~= d);
        }
        assert forall|x: (Seq<char>, SpecValue)| #[trigger] t.contains(x) implies (s.contains(x)
            || x == e) by {
            let k = choose|k: int| 0 <= k < t.len() && t[k] == x;
            if k < r.len() {
                assert(r[k] == x);
                assert(r.contains(x));
                if d.contains(x) {
                    let m = choose|m: int| 0 <= m < d.len() && d[m] == x;
                    assert(s[m] == x);
                }
            } else {
                assert(s[s.len() - 1] == x);
            }
        }
    } else {
        let t = s.push(e);
        assert(t.drop_last() =~= s);
        assert forall|x: (Seq<char>, SpecValue)| #[trigger] t.contains(x) implies (s.contains(x)
            || x == e) by {
            let k = choose|k: int| 0 <= k < t.len() && t[k] == x;
            if k < s.len() {
                assert(s[k] == x);
            }
        }
    }
}

/// Sorting entries keeps exactly their entries, and sorts their encoded
/// pairs.
proof fn lemma_sort_entries(s: Seq<(Seq<char>, SpecValue)>)
    ensures
        sort_entries(s).len() == s.len(),
        forall|x: (Seq<char>, SpecValue)| #[trigger] sort_entries(s).contains(x) ==> s.contains(x),
        entry_pairs(sort_entries(s)) == sort_by_key(entry_pairs(s)),
    decreases s.len(),
{
    if s.len() > 0 {
        let d = s.drop_last();
        lemma_sort_entries(d);
        lemma_insert_entry(sort_entries(d), s.last());
        assert(entry_pairs(s).drop_last() == entry_pairs(d));
        assert forall|x: (Seq<char>, SpecValue)| #[trigger] sort_entries(s).contains(x) implies s.contains(
            x,
        ) by {
            if sort_entries(d).contains(x) {
                let m = choose|m: int| 0 <= m < d.len() && d[m] == x;
                assert(s[m] == x);
            } else {
                assert(s[s.len() - 1] == x);
            }
        }
    }
}

/// `entries_canonical` entry by entry.
proof fn lemma_entries_canonical_index(s: Seq<(Seq<char>, SpecValue)>)
    ensures
        entries_canonical(s) <==> forall|i: int|
            0 <= i < s.len() ==> canonical(#[trigger] s[i].1) && below_2_64(
                encode_utf8(s[i].0).len(),
            ),
    decreases s.len(),
{
    if s.len() > 0 {
        let d = s.drop_last();
        lemma_entries_canonical_index(d);
        if entries_canonical(s) {
            assert forall|i: int| 0 <= i < s.len() implies canonical(#[trigger] s[i].1) && below_2_64(
                encode_utf8(s[i].0).len(),
            ) by {
                if i < d.len() {
                    assert(d[i] == s[i]);
                    assert(canonical(d[i].1));
                } else {
                    assert(s[i] == s.last());
                }
            }
        }
        if forall|i: int|
            0 <= i < s.len() ==> canonical(#[trigger] s[i].1) && below_2_64(
                encode_utf8(s[i].0).len(),
            ) {
            assert forall|i: int| 0 <= i < d.len() implies canonical(#[trigger] d[i].1) && below_2_64(
                encode_utf8(d[i].0).len(),
            ) by {
                assert(d[i] == s[i]);
                assert(canonical(s[i].1) && below_2_64(encode_utf8(s[i].0).len()));
            }
            assert(entries_canonical(d));
            let l = s.len() - 1;
            assert(canonical(s[l].1) && below_2_64(encode_utf8(s[l].0).len()));
            assert(s[l] == s.last());
            assert(entries_canonical(s));
        }
    }
}

/// `sortable_entries` entry by entry.
proof fn lemma_sortable_entries_index(s: Seq<(Seq<char>, SpecValue)>)
    requires
        sortable_entries(s),
    ensures
        forall|i: int|
            0 <= i < s.len() ==> sortable(#[trigger] s[i].1) && below_2_64(
                encode_utf8(s[i].0).len(),
            ),
    decreases s.len(),
{
    if s.len() > 0 {
        let d = s.drop_last();
        lemma_sortable_entries_index(d);
        assert forall|i: int| 0 <= i < s.len() implies sortable(#[trigger] s[i].1) && below_2_64(
            encode_utf8(s[i].0).len(),
        ) by {
            if i < d.len() {
                assert(d[i] == s[i]);
            }
        }
    }
}

/// Putting a value in canonical order keeps its encoding and makes it
/// canonical.
proof fn lemma_canon(v: SpecValue)
    requires
        sortable(v),
    ensures
        enc(canon(v)) == enc(v),
        canonical(canon(v)),
    decreases v,
{
    match v {
        SpecValue::Array(items) => {
            lemma_canon_items(items);
        },
        SpecValue::TextMap(entries) => {
            lemma_canon_entries(entries);
            let ce = canon_entries(entries);
            let se = sort_entries(ce);
            lemma_sort_entries(ce);
            lemma_sortable_entries_index(entries);
            assert(entry_keys_distinct(ce)) by {
                assert forall|i: int, j: int| 0 <= i < j < ce.len() implies #[trigger] ce[i].0
                    != #[trigger] ce[j].0 by {
                    assert(ce[i].0 == entries[i].0 && ce[j].0 == entries[j].0);
                }
            }
            assert forall|i: int| 0 <= i < ce.len() implies below_2_64(
                encode_utf8(#[trigger] ce[i].0).len(),
            ) by {
                assert(ce[i].0 == entries[i].0);
                assert(sortable(entries[i].1));
            }
            lemma_entry_pairs_distinct(ce);
            let pc = entry_pairs(ce);
            lemma_sort_strict(pc);
            lemma_sort_of_sorted(sort_by_key(pc));
            lemma_entries_canonical_index(ce);
            lemma_entries_canonical_index(se);
            lemma_entry_pairs_index(se);
            assert forall|i: int| 0 <= i < se.len() implies canonical(#[trigger] se[i].1) && below_2_64(
                encode_utf8(se[i].0).len(),
            ) by {
                assert(se.contains(se[i]));
                let j = choose|j: int| 0 <= j < ce.len() && ce[j] == se[i];
                assert(canonical(ce[j].1));
            }
            assert(keys_canonical(se)) by {
                assert forall|i: int, j: int| 0 <= i < j < se.len() implies lex_lt(
                    text_enc(#[trigger] se[i].0),
                    text_enc(#[trigger] se[j].0),
                ) by {
                    assert(entry_pairs(se)[i].0 == text_enc(se[i].0));
                    assert(entry_pairs(se)[j].0 == text_enc(se[j].0));
                }
            }
        },
        _ => {},
    }
}

proof fn lemma_canon_items(items: Seq<SpecValue>)
    requires
        sortable_items(items),
    ensures
        canon_items(items).len() == items.len(),
        enc_items(canon_items(items)) == enc_items(items),
        items_canonical(canon_items(items)),
    decreases items,
{
    if items.len() > 0 {
        lemma_canon_items(items.drop_last());
        lemma_canon(items.last());
        let c = canon_items(items);
        assert(c.drop_last() =~= canon_items(items.drop_last()));
    }
}

proof fn lemma_canon_entries(entries: Seq<(Seq<char>, SpecValue)>)
    requires
        sortable_entries(entries),
    ensures
        canon_entries(entries).len() == entries.len(),
        forall|i: int|
            0 <= i < entries.len() ==> #[trigger] canon_entries(entries)[i].0 == entries[i].0,
        entry_pairs(canon_entries(entries)) == entry_pairs(entries),
        entries_canonical(canon_entries(entries)),
    decreases entries,
{
    if entries.len() > 0 {
        let d = entries.drop_last();
        lemma_canon_entries(d);
        lemma_canon(entries.last().1);
        let c = canon_entries(entries);
        assert(c.drop_last() =~= canon_entries(d));
        assert forall|i: int| 0 <= i < entries.len() implies #[trigger] c[i].0 == entries[i].0 by {
            if i < d.len() {
                assert(c[i] == canon_entries(d)[i]);
                assert(d[i] == entries[i]);
            }
        }
    }
}

/// Decoding the encoding of a value whose maps have distinct keys gives the
/// value back with every map's entries in the order of their encoded keys:
/// that value is canonical and has the same encoding, so it is what
/// `from_bytes` returns for the bytes `to_bytes` writes (see
/// [`Value::from_bytes`]); a value already in that order comes back as it is.
pub proof fn law_decode_sorts_maps(v: SpecValue)
    requires
        sortable(v),
    ensures
        canonical(canon(v)),
        enc(canon(v)) == enc(v),
        decode(enc(v)) == Some(canon(v)),
        canonical(v) ==> canon(v) == v,
{
    lemma_canon(v);
    law_decode_enc(canon(v));
    if canonical(v) {
        law_canonical_encoding_injective(canon(v), v);
    }
}

/// The value whose canonical encoding is `data`, if there is one (there is
/// at most one, by `law_canonical_encoding_injective`).
pub open spec fn decode(data: Seq<u8>) -> Option<SpecValue> {
    if exists|sv: SpecValue| canonical(sv) && enc(sv) == data {
        Some(choose|sv: SpecValue| canonical(sv) && enc(sv) == data)
    } else {
        None
    }
}

/// Decoding the encoding of a canonical value gives the value back.
pub proof fn law_decode_enc(v: SpecValue)
    requires
        canonical(v),
    ensures
        decode(enc(v)) == Some(v),
{
    assert(canonical(v) && enc(v) == enc(v));
    let w = choose|sv: SpecValue| canonical(sv) && enc(sv) == enc(v);
    law_canonical_encoding_injective(w, v);
}

/// The value bound to `k` in a map: the first entry with that key.
pub open spec fn lookup(entries: Seq<(Seq<char>, SpecValue)>, k: Seq<char>) -> Option<SpecValue>
    decreases entries.len(),
{
    if entries.len() == 0 {
        None
    } else if entries[0].0 == k {
        Some(entries[0].1)
    } else {
        lookup(entries.skip(1), k)
    }
}

/// `lookup` finds the entry at `i` when no earlier entry has its key.
pub proof fn lemma_lookup_at(entries: Seq<(Seq<char>, SpecValue)>, i: int, k: Seq<char>)
    requires
        0 <= i < entries.len(),
        entries[i].0 == k,
        forall|j: int| 0 <= j < i ==> #[trigger] entries[j].0 != k,
    ensures
        lookup(entries, k) == Some(entries[i].1),
    decreases i,
{
    if i > 0 {
        let rest = entries.skip(1);
        assert forall|j: int| 0 <= j < i - 1 implies #[trigger] rest[j].0 != k by {
            assert(rest[j] == entries[j + 1]);
        }
        assert(rest[i - 1] == entries[i]);
        assert(entries[0].0 != k);
        lemma_lookup_at(rest, i - 1, k);
    }
}

/// `lookup` finds nothing when no entry has the key.
pub proof fn lemma_lookup_none(entries: Seq<(Seq<char>, SpecValue)>, k: Seq<char>)
    requires
        forall|j: int| 0 <= j < entries.len() ==> #[trigger] entries[j].0 != k,
    ensures
        lookup(entries, k) is None,
    decreases entries.len(),
{
    if entries.len() > 0 {
        let rest = entries.skip(1);
        assert forall|j: int| 0 <= j < rest.len() implies #[trigger] rest[j].0 != k by {
            assert(rest[j] == entries[j + 1]);
        }
        assert(entries[0].0 != k);
        lemma_lookup_none(rest, k);
    }
}

/// The field label reported for a missing map key.
pub open spec fn field_label(k: Seq<char>) -> Seq<char> {
    if k == "v"@ || k == "aud"@ || k == "nonce"@ || k == "iat"@ || k == "exp"@ || k == "chal"@
        || k == "pub"@ || k == "sig"@ || k == "pqpub"@ || k == "pqsig"@ || k == "alg"@ || k
        == "key"@ || k == "node"@ {
        k
    } else {
        "field"@
    }
}

/// The error for a field that is absent or of the wrong type.
pub open spec fn field_fault(e: Seq<(Seq<char>, SpecValue)>, k: Seq<char>) -> Fault {
    if lookup(e, k) is None {
        Fault::MissingField(field_label(k))
    } else {
        Fault::Cbor
    }
}

/// Equality of two strings, by their UTF-8 bytes.
pub fn str_equal(a: &str, b: &str) -> (r: bool)
    ensures
        r == (a@ == b@),
{
    let r = crate::seqs::bytes_equal(a.as_bytes(), b.as_bytes());
    proof {
        encode_utf8_decode_utf8(a@);
        encode_utf8_decode_utf8(b@);
    }
    r
}

// MissingField wants a `&'static str`; protocol field names are string
// literals, so known names are returned as such and anything else gets a
// generic label.
fn leak(key: &str) -> (r: &'static str)
    ensures
        r@ == field_label(key@),
{
    if str_equal(key, "v") {
        "v"
    } else if str_equal(key, "aud") {
        "aud"
    } else if str_equal(key, "nonce") {
        "nonce"
    } else if str_equal(key, "iat") {
        "iat"
    } else if str_equal(key, "exp") {
        "exp"
    } else if str_equal(key, "chal") {
        "chal"
    } else if str_equal(key, "pub") {
        "pub"
    } else if str_equal(key, "sig") {
        "sig"
    } else if str_equal(key, "pqpub") {
        "pqpub"
    } else if str_equal(key, "pqsig") {
        "pqsig"
    } else if str_equal(key, "alg") {
        "alg"
    } else if str_equal(key, "key") {
        "key"
    } else if str_equal(key, "node") {
        "node"
    } else {
        "field"
    }
}

/// Find the first entry with key `key`.
fn find_entry<'a>(entries: &'a Vec<(String, Value)>, key: &str) -> (r: Option<&'a Value>)
    ensures
        r matches Some(v) ==> lookup(entries_view(entries@), key@) == Some(v@),
        r is None ==> lookup(entries_view(entries@), key@) is None,
{
    proof {
        lemma_entries_view(entries@);
    }
    let ghost ev = entries_view(entries@);
    let mut i: usize = 0;
    assert(ev.skip(0) =~= ev);
    while i < entries.len()
        invariant
            i <= entries.len(),
            ev == entries_view(entries@),
            ev.len() == entries.len(),
            forall|j: int|
                0 <= j < entries.len() ==> #[trigger] ev[j] == (entries@[j].0@, value_view(
                    entries@[j].1,
                )),
            lookup(ev, key@) == lookup(ev.skip(i as int), key@),
        decreases entries.len() - i,
    {
        assert(ev.skip(i as int)[0] == ev[i as int]);
        if str_equal(entries[i].0.as_str(), key) {
            return Some(&entries[i].1);
        }
        assert(ev.skip(i as int).skip(1) =~= ev.skip(i + 1));
        i = i + 1;
    }
    None
}

/// Build a map `Value` from `(key, value)` pairs, keeping their order.
pub fn map(entries: Vec<(&str, Value)>) -> (r: Value)
    ensures
        r@ == SpecValue::TextMap(
            Seq::new(entries@.len(), |i: int| (entries@[i].0@, value_view(entries@[i].1))),
        ),
{
    let ghost want = Seq::new(entries@.len(), |i: int| (entries@[i].0@, value_view(entries@[i].1)));
    let ghost orig = entries@;
    let mut rev: Vec<(String, Value)> = Vec::new();
    let mut entries = entries;
    while entries.len() > 0
        invariant
            entries.len() + rev.len() == orig.len(),
            forall|j: int| 0 <= j < entries.len() ==> #[trigger] entries@[j] == orig[j],
            forall|j: int|
                0 <= j < rev.len() ==> (#[trigger] rev@[j].0@, rev@[j].1) == (
                    orig[orig.len() - 1 - j].0@,
                    orig[orig.len() - 1 - j].1,
                ),
        decreases entries.len(),
    {
        let (k, v) = entries.pop().unwrap();
        rev.push((k.to_owned(), v));
    }
    let mut out: Vec<(String, Value)> = Vec::new();
    while rev.len() > 0
        invariant
            out.len() + rev.len() == orig.len(),
            forall|j: int|
                0 <= j < rev.len() ==> (#[trigger] rev@[j].0@, rev@[j].1) == (
                    orig[orig.len() - 1 - j].0@,
                    orig[orig.len() - 1 - j].1,
                ),
            forall|j: int|
                0 <= j < out.len() ==> (#[trigger] out@[j].0@, out@[j].1) == (
                    orig[j].0@,
                    orig[j].1,
                ),
        decreases rev.len(),
    {
        let e = rev.pop().unwrap();
        out.push(e);
    }
    proof {
        lemma_entries_view(out@);
        assert(entries_view(out@) =~= want);
    }
    Value::TextMap(out)
}

impl Value {
    pub fn as_uint(&self) -> (r: Result<u64, AuthError>)
        ensures
            r matches Ok(n) ==> self@ == SpecValue::Uint(n),
            r is Err <==> !(self@ is Uint),
            r matches Err(e) ==> e is Cbor,
    {
        match self {
            Value::Uint(n) => Ok(*n),
            _ => Err(cbor_err("expected uint")),
        }
    }

    pub fn as_bytes(&self) -> (r: Result<&[u8], AuthError>)
        ensures
            r matches Ok(b) ==> self@ == SpecValue::Bytes(b@),
            r is Err <==> !(self@ is Bytes),
            r matches Err(e) ==> e is Cbor,
    {
        match self {
            Value::Bytes(b) => Ok(b.as_slice()),
            _ => Err(cbor_err("expected byte string")),
        }
    }

    pub fn as_text(&self) -> (r: Result<&str, AuthError>)
        ensures
            r matches Ok(s) ==> self@ == SpecValue::Text(s@),
            r is Err <==> !(self@ is Text),
            r matches Err(e) ==> e is Cbor,
    {
        match self {
            Value::Text(s) => Ok(s.as_str()),
            _ => Err(cbor_err("expected text string")),
        }
    }

    /// Look up a key in a map value.
    pub fn get(&self, key: &str) -> (r: Result<&Value, AuthError>)
        ensures
            r matches Ok(v) ==> self@ is TextMap && lookup(self@->TextMap_0, key@) == Some(v@),
            r matches Err(e) ==> (if self@ is TextMap {
                lookup(self@->TextMap_0, key@) is None && (e matches AuthError::MissingField(f)
                    && f@ == field_label(key@))
            } else {
                e is Cbor
            }),
    {
        match self {
            Value::TextMap(entries) => match find_entry(entries, key) {
                Some(v) => Ok(v),
                None => Err(AuthError::MissingField(leak(key))),
            },
            _ => Err(cbor_err("expected map")),
        }
    }

    /// Optional map lookup (returns None if the key is absent).
    pub fn get_opt(&self, key: &str) -> (r: Result<Option<&Value>, AuthError>)
        ensures
            r matches Ok(o) ==> self@ is TextMap && (match o {
                Some(v) => lookup(self@->TextMap_0, key@) == Some(v@),
                None => lookup(self@->TextMap_0, key@) is None,
            }),
            r is Err <==> !(self@ is TextMap),
            r matches Err(e) ==> e is Cbor,
    {
        match self {
            Value::TextMap(entries) => Ok(find_entry(entries, key)),
            _ => Err(cbor_err("expected map")),
        }
    }
}

} // verus!
