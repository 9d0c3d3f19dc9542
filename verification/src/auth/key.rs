//! Self-describing public keys, signatures, and fingerprints.

use vstd::prelude::*;
use vstd::utf8::is_ascii_chars;

use crate::auth::algorithm::{
    classical_tag, lemma_tags_distinct, pq_tag, ClassicalAlg, PqAlg,
};
use crate::auth::cbor::{
    canonical, enc, entries_canonical, field_fault, keys_canonical, lemma_ascii_key_lt, lookup,
    SpecValue, Value,
};
use crate::auth::error::{AuthError, Fault};
use crate::foreign::base58::{base58_bytes, base58_decode, base58_encode, base58_text};
use crate::foreign::hash::{blake3_digest, blake3_hash};
use crate::foreign::text::vec_to_array32;
use crate::seqs::to_vec;

verus! {

broadcast use vstd::std_specs::vec::group_vec_axioms;

/// A classical public key carrying its algorithm tag.
#[derive(Clone, Debug, PartialEq, Eq)]
pub struct ClassicalPublicKey {
    pub alg: ClassicalAlg,
    pub bytes: Vec<u8>,
}

/// A classical signature carrying its algorithm tag.
#[derive(Clone, Debug, PartialEq, Eq)]
pub struct ClassicalSignature {
    pub alg: ClassicalAlg,
    pub bytes: Vec<u8>,
}

/// A post-quantum public key carrying its algorithm tag.
#[derive(Clone, Debug, PartialEq, Eq)]
pub struct PqPublicKey {
    pub alg: PqAlg,
    pub bytes: Vec<u8>,
}

/// A post-quantum signature carrying its algorithm tag.
#[derive(Clone, Debug, PartialEq, Eq)]
pub struct PqSignature {
    pub alg: PqAlg,
    pub bytes: Vec<u8>,
}

impl View for ClassicalPublicKey {
    type V = (ClassicalAlg, Seq<u8>);

    open spec fn view(&self) -> (ClassicalAlg, Seq<u8>) {
        (self.alg, self.bytes@)
    }
}

impl View for ClassicalSignature {
    type V = (ClassicalAlg, Seq<u8>);

    open spec fn view(&self) -> (ClassicalAlg, Seq<u8>) {
        (self.alg, self.bytes@)
    }
}

impl View for PqPublicKey {
    type V = (PqAlg, Seq<u8>);

    open spec fn view(&self) -> (PqAlg, Seq<u8>) {
        (self.alg, self.bytes@)
    }
}

impl View for PqSignature {
    type V = (PqAlg, Seq<u8>);

    open spec fn view(&self) -> (PqAlg, Seq<u8>) {
        (self.alg, self.bytes@)
    }
}

/// The canonical `{ "alg": tstr, <field>: bstr }` map of a key or signature.
pub open spec fn tagged_value(tag: Seq<char>, field: Seq<char>, bytes: Seq<u8>) -> SpecValue {
    SpecValue::TextMap(seq![("alg"@, SpecValue::Text(tag)), (field, SpecValue::Bytes(bytes))])
}

/// The algorithm tag and bytes read from a `{ "alg", <field> }` map, if both
/// are present with the right types.
pub open spec fn tagged_fields(v: SpecValue, field: Seq<char>) -> Option<(Seq<char>, Seq<u8>)> {
    if let SpecValue::TextMap(e) = v {
        if let Some(SpecValue::Text(t)) = lookup(e, "alg"@) {
            if let Some(SpecValue::Bytes(b)) = lookup(e, field) {
                Some((t, b))
            } else {
                None
            }
        } else {
            None
        }
    } else {
        None
    }
}

pub open spec fn classical_key_value(k: (ClassicalAlg, Seq<u8>)) -> SpecValue {
    tagged_value(classical_tag(k.0), "key"@, k.1)
}

pub open spec fn classical_sig_value(k: (ClassicalAlg, Seq<u8>)) -> SpecValue {
    tagged_value(classical_tag(k.0), "sig"@, k.1)
}

pub open spec fn pq_key_value(k: (PqAlg, Seq<u8>)) -> SpecValue {
    tagged_value(pq_tag(k.0), "key"@, k.1)
}

pub open spec fn pq_sig_value(k: (PqAlg, Seq<u8>)) -> SpecValue {
    tagged_value(pq_tag(k.0), "sig"@, k.1)
}

/// The error reported for a value that is not a `{ "alg": tstr, <field>: bstr }`
/// map: the first of the two fields that is absent or mistyped.
pub open spec fn tag_fault(v: SpecValue, field: Seq<char>) -> Fault {
    match v {
        SpecValue::TextMap(e) => if !(lookup(e, "alg"@) matches Some(SpecValue::Text(_))) {
            field_fault(e, "alg"@)
        } else {
            field_fault(e, field)
        },
        _ => Fault::Cbor,
    }
}

/// The error reported for a value that describes no key or signature: a
/// malformed map, or an algorithm tag that names no algorithm.
pub open spec fn key_fault(v: SpecValue, field: Seq<char>) -> Fault {
    match tagged_fields(v, field) {
        Some((t, _)) => Fault::UnknownAlg(t),
        None => tag_fault(v, field),
    }
}

/// The classical key or signature a map describes, if any.
pub open spec fn classical_of(v: SpecValue, field: Seq<char>) -> Option<(ClassicalAlg, Seq<u8>)> {
    match tagged_fields(v, field) {
        Some((t, b)) => if exists|a: ClassicalAlg| classical_tag(a) == t {
            Some((choose|a: ClassicalAlg| classical_tag(a) == t, b))
        } else {
            None
        },
        None => None,
    }
}

/// The post-quantum key or signature a map describes, if any.
pub open spec fn pq_of(v: SpecValue, field: Seq<char>) -> Option<(PqAlg, Seq<u8>)> {
    match tagged_fields(v, field) {
        Some((t, b)) => if exists|a: PqAlg| pq_tag(a) == t {
            Some((choose|a: PqAlg| pq_tag(a) == t, b))
        } else {
            None
        },
        None => None,
    }
}

pub proof fn lemma_tag_ascii()
    ensures
        is_ascii_chars("alg"@),
        is_ascii_chars("key"@),
        is_ascii_chars("sig"@),
        "alg"@.len() == 3,
        "key"@.len() == 3,
        "sig"@.len() == 3,
        "alg"@ != "key"@,
        "alg"@ != "sig"@,
        forall|a: ClassicalAlg| below_64(classical_tag(a)),
        forall|a: PqAlg| below_64(pq_tag(a)),
{
    reveal_strlit("alg");
    reveal_strlit("key");
    reveal_strlit("sig");
    assert("alg"@[0] != "key"@[0]);
    assert("alg"@[0] != "sig"@[0]);
    reveal_strlit("ed25519");
    reveal_strlit("p256");
    reveal_strlit("ml-dsa-44");
    reveal_strlit("ml-dsa-65");
    reveal_strlit("ml-dsa-87");
    assert forall|a: ClassicalAlg| below_64(classical_tag(a)) by {
        vstd::utf8::encode_utf8_first_scalar(classical_tag(a));
        lemma_utf8_len_bound(classical_tag(a));
    }
    assert forall|a: PqAlg| below_64(pq_tag(a)) by {
        lemma_utf8_len_bound(pq_tag(a));
    }
}

/// The UTF-8 encoding of a text is at most four bytes per character.
pub proof fn lemma_utf8_len_bound(t: Seq<char>)
    ensures
        vstd::utf8::encode_utf8(t).len() <= 4 * t.len(),
    decreases t.len(),
{
    if t.len() > 0 {
        vstd::utf8::encode_utf8_first_scalar(t);
        lemma_utf8_len_bound(t.drop_first());
    }
}

/// The UTF-8 encoding of a tag text fits a 64-bit length.
pub open spec fn below_64(t: Seq<char>) -> bool {
    crate::auth::cbor::below_2_64(vstd::utf8::encode_utf8(t).len())
}

/// A `{ "alg", "key"|"sig" }` map is canonical.
pub proof fn lemma_tagged_canonical(tag: Seq<char>, field: Seq<char>, bytes: Seq<u8>)
    requires
        field == "key"@ || field == "sig"@,
        below_64(tag),
        crate::auth::cbor::below_2_64(bytes.len()),
    ensures
        canonical(tagged_value(tag, field, bytes)),
        tagged_fields(tagged_value(tag, field, bytes), field) == Some((tag, bytes)),
{
    lemma_tag_ascii();
    reveal_strlit("alg");
    reveal_strlit("key");
    reveal_strlit("sig");
    let e = seq![("alg"@, SpecValue::Text(tag)), (field, SpecValue::Bytes(bytes))];
    lemma_ascii_key_lt("alg"@, field, 0);
    assert(keys_canonical(e));
    crate::auth::cbor::lemma_entries_canonical(e);
    assert(below_64(field)) by {
        lemma_utf8_len_bound(field);
    }
    assert(below_64("alg"@)) by {
        lemma_utf8_len_bound("alg"@);
    }
    assert(canonical(e[0].1));
    assert(canonical(e[1].1));
    assert(entries_canonical(e));
    assert(e.skip(1).len() == 1);
    assert(e.skip(1)[0] == e[1]);
    assert(e[0].0 != field);
    assert(lookup(e, "alg"@) == Some(SpecValue::Text(tag)));
    assert(lookup(e.skip(1), field) == Some(SpecValue::Bytes(bytes)));
    assert(lookup(e, field) == Some(SpecValue::Bytes(bytes)));
}

/// Build a `{ "alg": tag, <field>: bytes }` map.
fn tagged_to_value(tag: &str, field: &'static str, bytes: &Vec<u8>) -> (r: Value)
    ensures
        r@ == tagged_value(tag@, field@, bytes@),
{
    let mut entries: Vec<(String, Value)> = Vec::new();
    entries.push(("alg".to_owned(), Value::Text(tag.to_owned())));
    entries.push((field.to_owned(), Value::Bytes(to_vec(bytes.as_slice()))));
    let r = Value::TextMap(entries);
    proof {
        crate::auth::cbor::lemma_entries_view(entries@);
        assert(crate::auth::cbor::entries_view(entries@) =~= seq![
            ("alg"@, SpecValue::Text(tag@)),
            (field@, SpecValue::Bytes(bytes@)),
        ]);
    }
    r
}

/// Read the tag and bytes of a `{ "alg", <field> }` map.
fn tagged_from_value<'a>(v: &'a Value, field: &str) -> (r: Result<(&'a str, &'a [u8]), AuthError>)
    ensures
        r matches Ok((t, b)) ==> tagged_fields(v@, field@) == Some((t@, b@)),
        r is Err <==> tagged_fields(v@, field@) is None,
        r matches Err(e) ==> e@ == tag_fault(v@, field@),
{
    let t = v.get("alg")?.as_text()?;
    let b = v.get(field)?.as_bytes()?;
    Ok((t, b))
}

impl ClassicalPublicKey {
    /// Canonical `{ "alg": tstr, "key": bstr }` map value.
    pub fn to_value(&self) -> (r: Value)
        ensures
            r@ == classical_key_value(self@),
            canonical(r@),
    {
        proof {
            lemma_tag_ascii();
            assert(self.bytes@.len() == self.bytes.len());
            lemma_tagged_canonical(classical_tag(self.alg), "key"@, self.bytes@);
        }
        tagged_to_value(self.alg.tag(), "key", &self.bytes)
    }

    pub fn from_value(v: &Value) -> (r: Result<Self, AuthError>)
        ensures
            r matches Ok(k) ==> classical_of(v@, "key"@) == Some(k@),
            r is Err <==> classical_of(v@, "key"@) is None,
            r matches Err(e) ==> e@ == key_fault(v@, "key"@),
    {
        let (t, b) = tagged_from_value(v, "key")?;
        let alg = ClassicalAlg::from_tag(t)?;
        proof {
            lemma_tags_distinct();
        }
        Ok(Self { alg, bytes: to_vec(b) })
    }

    /// An independent copy of this key.
    pub fn duplicate(&self) -> (r: Self)
        ensures
            r@ == self@,
    {
        Self { alg: self.alg, bytes: to_vec(self.bytes.as_slice()) }
    }

    /// The identity fingerprint: `Blake3(dcbor(PublicKey))`, which commits
    /// to the algorithm as well as the key bytes.
    pub fn fingerprint(&self) -> (r: Fingerprint)
        ensures
            r@ == blake3_digest(enc(classical_key_value(self@))),
    {
        let bytes = self.to_value().to_bytes();
        Fingerprint(blake3_hash(bytes.as_slice()))
    }
}

impl ClassicalSignature {
    pub fn to_value(&self) -> (r: Value)
        ensures
            r@ == classical_sig_value(self@),
            canonical(r@),
    {
        proof {
            lemma_tag_ascii();
            assert(self.bytes@.len() == self.bytes.len());
            lemma_tagged_canonical(classical_tag(self.alg), "sig"@, self.bytes@);
        }
        tagged_to_value(self.alg.tag(), "sig", &self.bytes)
    }

    pub fn from_value(v: &Value) -> (r: Result<Self, AuthError>)
        ensures
            r matches Ok(k) ==> classical_of(v@, "sig"@) == Some(k@),
            r is Err <==> classical_of(v@, "sig"@) is None,
            r matches Err(e) ==> e@ == key_fault(v@, "sig"@),
    {
        let (t, b) = tagged_from_value(v, "sig")?;
        let alg = ClassicalAlg::from_tag(t)?;
        proof {
            lemma_tags_distinct();
        }
        Ok(Self { alg, bytes: to_vec(b) })
    }

    pub fn duplicate(&self) -> (r: Self)
        ensures
            r@ == self@,
    {
        Self { alg: self.alg, bytes: to_vec(self.bytes.as_slice()) }
    }
}

impl PqPublicKey {
    pub fn to_value(&self) -> (r: Value)
        ensures
            r@ == pq_key_value(self@),
            canonical(r@),
    {
        proof {
            lemma_tag_ascii();
            assert(self.bytes@.len() == self.bytes.len());
            lemma_tagged_canonical(pq_tag(self.alg), "key"@, self.bytes@);
        }
        tagged_to_value(self.alg.tag(), "key", &self.bytes)
    }

    pub fn from_value(v: &Value) -> (r: Result<Self, AuthError>)
        ensures
            r matches Ok(k) ==> pq_of(v@, "key"@) == Some(k@),
            r is Err <==> pq_of(v@, "key"@) is None,
            r matches Err(e) ==> e@ == key_fault(v@, "key"@),
    {
        let (t, b) = tagged_from_value(v, "key")?;
        let alg = PqAlg::from_tag(t)?;
        proof {
            lemma_tags_distinct();
        }
        Ok(Self { alg, bytes: to_vec(b) })
    }

    pub fn duplicate(&self) -> (r: Self)
        ensures
            r@ == self@,
    {
        Self { alg: self.alg, bytes: to_vec(self.bytes.as_slice()) }
    }
}

impl PqSignature {
    pub fn to_value(&self) -> (r: Value)
        ensures
            r@ == pq_sig_value(self@),
            canonical(r@),
    {
        proof {
            lemma_tag_ascii();
            assert(self.bytes@.len() == self.bytes.len());
            lemma_tagged_canonical(pq_tag(self.alg), "sig"@, self.bytes@);
        }
        tagged_to_value(self.alg.tag(), "sig", &self.bytes)
    }

    pub fn from_value(v: &Value) -> (r: Result<Self, AuthError>)
        ensures
            r matches Ok(k) ==> pq_of(v@, "sig"@) == Some(k@),
            r is Err <==> pq_of(v@, "sig"@) is None,
            r matches Err(e) ==> e@ == key_fault(v@, "sig"@),
    {
        let (t, b) = tagged_from_value(v, "sig")?;
        let alg = PqAlg::from_tag(t)?;
        proof {
            lemma_tags_distinct();
        }
        Ok(Self { alg, bytes: to_vec(b) })
    }

    pub fn duplicate(&self) -> (r: Self)
        ensures
            r@ == self@,
    {
        Self { alg: self.alg, bytes: to_vec(self.bytes.as_slice()) }
    }
}

/// Reading a key or signature back from its map gives the same key or
/// signature.
pub proof fn law_key_value_roundtrip(
    ck: (ClassicalAlg, Seq<u8>),
    pk: (PqAlg, Seq<u8>),
)
    requires
        crate::auth::cbor::below_2_64(ck.1.len()),
        crate::auth::cbor::below_2_64(pk.1.len()),
    ensures
        classical_of(classical_key_value(ck), "key"@) == Some(ck),
        classical_of(classical_sig_value(ck), "sig"@) == Some(ck),
        pq_of(pq_key_value(pk), "key"@) == Some(pk),
        pq_of(pq_sig_value(pk), "sig"@) == Some(pk),
{
    lemma_tag_ascii();
    lemma_tags_distinct();
    lemma_tagged_canonical(classical_tag(ck.0), "key"@, ck.1);
    lemma_tagged_canonical(classical_tag(ck.0), "sig"@, ck.1);
    lemma_tagged_canonical(pq_tag(pk.0), "key"@, pk.1);
    lemma_tagged_canonical(pq_tag(pk.0), "sig"@, pk.1);
}

/// A 32-byte Blake3 fingerprint of a self-describing public key.
#[derive(Clone, Copy, Debug, PartialEq, Eq, Hash)]
pub struct Fingerprint(pub(crate) [u8; 32]);

impl View for Fingerprint {
    type V = Seq<u8>;

    closed spec fn view(&self) -> Seq<u8> {
        self.0@
    }
}

impl Fingerprint {
    pub fn as_bytes(&self) -> (r: &[u8; 32])
        ensures
            r@ == self@,
    {
        &self.0
    }

    /// The Base58 text of the fingerprint; decoding it gives the fingerprint
    /// back.
    pub fn to_base58(&self) -> (r: String)
        ensures
            r@ == base58_text(self@),
            base58_bytes(r@) == Some(self@),
    {
        base58_encode(self.0.as_slice())
    }

    pub fn from_base58(s: &str) -> (r: Result<Self, AuthError>)
        ensures
            r matches Ok(f) ==> base58_bytes(s@) == Some(f@),
            r is Err <==> !(base58_bytes(s@) matches Some(b) && b.len() == 32),
            r matches Err(e) ==> e is InvalidKey,
    {
        let bytes = match base58_decode(s) {
            Some(b) => b,
            None => {
                return Err(AuthError::InvalidKey("fingerprint base58"));
            },
        };
        match vec_to_array32(bytes) {
            Some(arr) => Ok(Self(arr)),
            None => Err(AuthError::InvalidKey("fingerprint length")),
        }
    }
}

} // verus!
