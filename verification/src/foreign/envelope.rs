//! Gordian Envelope (`bc-envelope`, with its `dcbor` maps), read and written
//! one call at a time, always through the envelope's CBOR encoding. What a
//! read gives is named as a function of the bytes; what a write makes is
//! stated by what those reads give on its result. Every call here decodes
//! its input, and the decoder recurses once per nesting level: it is only
//! handed bytes whose nesting [`cbor_nesting_within`] has bounded, and each
//! write states how much deeper its result nests than its input.
//!
//! [`cbor_nesting_within`]: crate::storage::nesting::cbor_nesting_within

use vstd::prelude::*;
use vstd::utf8::is_ascii_chars;

use bc_envelope::prelude::{ByteString, CBOREncodable, CBORCase, DigestProvider, Tag, CBOR};
use bc_envelope::Envelope;

use crate::storage::capability_wire::{bytes_view, text_view, texts, LeafShape, SubjectShape};
use crate::storage::nesting::{envelope_nesting_ok, nesting_ok};

verus! {

/// A deterministic-CBOR map.
#[verifier::external_type_specification]
#[verifier::external_body]
pub struct ExCborMap(bc_envelope::prelude::Map);

/// The digest of the subject of the envelope that the bytes encode, if they
/// encode one.
pub uninterp spec fn envelope_subject_digest_of(bytes: Seq<u8>) -> Option<Seq<u8>>;

/// `Envelope::try_from_cbor_data`, then `subject().digest()`: the 32-byte
/// subject digest of the envelope the bytes encode, a function of the bytes;
/// `None` when they are no valid envelope.
#[verifier::external_body]
pub(crate) fn cbor_subject_digest(bytes: &[u8]) -> (r: Option<[u8; 32]>)
    requires
        envelope_nesting_ok(bytes@),
    ensures
        match r {
            Some(d) => envelope_subject_digest_of(bytes@) == Some(d@),
            None => envelope_subject_digest_of(bytes@) is None,
        },
{
    match Envelope::try_from_cbor_data(bytes.to_vec()) {
        Ok(env) => Some(*env.subject().digest().data()),
        Err(_) => None,
    }
}

/// The CBOR encoding of the envelope that a wrapped envelope encoded by the
/// bytes holds as its subject; `None` when the bytes encode no envelope or
/// its subject is no wrapped envelope.
pub uninterp spec fn envelope_unwrapped_of(bytes: Seq<u8>) -> Option<Seq<u8>>;

/// `Envelope::try_from_cbor_data`, `try_unwrap`, then `to_cbor_data`: the
/// encoding of the wrapped envelope, a function of the bytes.
#[verifier::external_body]
pub(crate) fn envelope_unwrapped(bytes: &[u8]) -> (r: Option<Vec<u8>>)
    requires
        envelope_nesting_ok(bytes@),
    ensures
        bytes_view(r) == envelope_unwrapped_of(bytes@),
{
    Some(Envelope::try_from_cbor_data(bytes.to_vec()).ok()?.try_unwrap().ok()?.to_cbor_data())
}

/// What the subject of the envelope encoded by the bytes is: no leaf, a leaf
/// holding a map, or another leaf; `None` when the bytes encode no envelope.
pub uninterp spec fn envelope_subject_shape_of(bytes: Seq<u8>) -> Option<SubjectShape>;

/// `Envelope::try_from_cbor_data`, then `subject().try_leaf()` and the CBOR
/// case of the leaf: the subject's shape, a function of the bytes.
#[verifier::external_body]
pub(crate) fn envelope_subject_shape(bytes: &[u8]) -> (r: Option<SubjectShape>)
    requires
        envelope_nesting_ok(bytes@),
    ensures
        r == envelope_subject_shape_of(bytes@),
{
    match Envelope::try_from_cbor_data(bytes.to_vec()).ok()?.subject().try_leaf() {
        Err(_) => Some(SubjectShape::NotLeaf),
        Ok(cbor) => match cbor.into_case() {
            CBORCase::Map(_) => Some(SubjectShape::Entries),
            _ => Some(SubjectShape::NotMap),
        },
    }
}

/// The text under the key in the subject map of the envelope encoded by the
/// bytes; `None` when there is no such map, no such key, or no text there.
pub uninterp spec fn envelope_map_text_of(bytes: Seq<u8>, key: Seq<char>) -> Option<Seq<char>>;

/// `Envelope::try_from_cbor_data`, the subject's map, then `Map::get` of a
/// text: a function of the bytes and the key.
#[verifier::external_body]
pub(crate) fn envelope_map_text(bytes: &[u8], key: &str) -> (r: Option<String>)
    requires
        envelope_nesting_ok(bytes@),
    ensures
        text_view(r) == envelope_map_text_of(bytes@, key@),
{
    match Envelope::try_from_cbor_data(bytes.to_vec()).ok()?.subject().try_leaf().ok()?.into_case() {
        CBORCase::Map(m) => m.get::<&str, String>(key),
        _ => None,
    }
}

/// The unsigned 32-bit number under the key in the subject map of the
/// envelope encoded by the bytes; `None` when there is no such map, no such
/// key, or no such number there.
pub uninterp spec fn envelope_map_u32_of(bytes: Seq<u8>, key: Seq<char>) -> Option<u32>;

/// `Envelope::try_from_cbor_data`, the subject's map, then `Map::get` of an
/// unsigned 32-bit number: a function of the bytes and the key.
#[verifier::external_body]
pub(crate) fn envelope_map_u32(bytes: &[u8], key: &str) -> (r: Option<u32>)
    requires
        envelope_nesting_ok(bytes@),
    ensures
        r == envelope_map_u32_of(bytes@, key@),
{
    match Envelope::try_from_cbor_data(bytes.to_vec()).ok()?.subject().try_leaf().ok()?.into_case() {
        CBORCase::Map(m) => m.get::<&str, u32>(key),
        _ => None,
    }
}

/// The byte string under the key in the subject map of the envelope encoded
/// by the bytes; `None` when there is no such map, no such key, or no byte
/// string there.
pub uninterp spec fn envelope_map_bytes_of(bytes: Seq<u8>, key: Seq<char>) -> Option<Seq<u8>>;

/// `Envelope::try_from_cbor_data`, the subject's map, then `Map::get` of a
/// byte string: a function of the bytes and the key.
#[verifier::external_body]
pub(crate) fn envelope_map_bytes(bytes: &[u8], key: &str) -> (r: Option<Vec<u8>>)
    requires
        envelope_nesting_ok(bytes@),
    ensures
        bytes_view(r) == envelope_map_bytes_of(bytes@, key@),
{
    match Envelope::try_from_cbor_data(bytes.to_vec()).ok()?.subject().try_leaf().ok()?.into_case() {
        CBORCase::Map(m) => Some(m.get::<&str, ByteString>(key)?.to_vec()),
        _ => None,
    }
}

/// The list of texts that the one assertion with the predicate holds, in
/// the envelope encoded by the bytes; `None` when there is no envelope, not
/// exactly one such assertion, or its object is no such list.
pub uninterp spec fn envelope_text_list_of(bytes: Seq<u8>, predicate: Seq<char>) -> Option<
    Seq<Seq<char>>,
>;

/// `Envelope::try_from_cbor_data`, then `extract_object_for_predicate` of a
/// list of texts: a function of the bytes and the predicate.
#[verifier::external_body]
pub(crate) fn envelope_text_list(bytes: &[u8], predicate: &str) -> (r: Option<Vec<String>>)
    requires
        envelope_nesting_ok(bytes@),
    ensures
        match r {
            Some(l) => envelope_text_list_of(bytes@, predicate@) == Some(texts(l@)),
            None => envelope_text_list_of(bytes@, predicate@) is None,
        },
{
    Envelope::try_from_cbor_data(bytes.to_vec()).ok()?.extract_object_for_predicate::<Vec<String>>(
        predicate,
    ).ok()
}

/// The leaf shape of the object of the one assertion with the predicate, in
/// the envelope encoded by the bytes; `None` when there is no envelope, or
/// not exactly one such assertion.
pub uninterp spec fn envelope_object_leaf_of(bytes: Seq<u8>, predicate: Seq<char>) -> Option<
    LeafShape,
>;

/// `Envelope::try_from_cbor_data`, `optional_object_for_predicate`, then
/// `try_leaf` and the CBOR case: a tagged value with its tag and, when the
/// tagged item is an unsigned integer, that integer.
#[verifier::external_body]
pub(crate) fn envelope_object_leaf(bytes: &[u8], predicate: &str) -> (r: Option<LeafShape>)
    requires
        envelope_nesting_ok(bytes@),
    ensures
        r == envelope_object_leaf_of(bytes@, predicate@),
{
    let obj = Envelope::try_from_cbor_data(bytes.to_vec()).ok()?.optional_object_for_predicate(predicate).ok()??;
    Some(match obj.try_leaf() {
        Err(_) => LeafShape::NotLeaf,
        Ok(cbor) => match cbor.into_case() {
            CBORCase::Tagged(tag, item) => match item.into_case() {
                CBORCase::Unsigned(v) => LeafShape::Tagged { tag: tag.value(), unsigned: Some(v) },
                _ => LeafShape::Tagged { tag: tag.value(), unsigned: None },
            },
            _ => LeafShape::Other,
        },
    })
}

/// The text object of the one assertion with the predicate, in the envelope
/// encoded by the bytes; `None` when there is no envelope, no such
/// assertion, more than one, or its object is not text.
pub uninterp spec fn envelope_optional_text_of(bytes: Seq<u8>, predicate: Seq<char>) -> Option<
    Seq<char>,
>;

/// `Envelope::try_from_cbor_data`, then `extract_optional_object_for_predicate`
/// of a text: a function of the bytes and the predicate.
#[verifier::external_body]
pub(crate) fn envelope_optional_text(bytes: &[u8], predicate: &str) -> (r: Option<String>)
    requires
        envelope_nesting_ok(bytes@),
    ensures
        text_view(r) == envelope_optional_text_of(bytes@, predicate@),
{
    Envelope::try_from_cbor_data(bytes.to_vec()).ok()?.extract_optional_object_for_predicate::<
        String,
    >(predicate).ok().flatten()
}

/// The byte-string object of the one assertion with the predicate, in the
/// envelope encoded by the bytes; `None` when there is no envelope, no such
/// assertion, more than one, or its object is not a byte string.
pub uninterp spec fn envelope_optional_bytes_of(bytes: Seq<u8>, predicate: Seq<char>) -> Option<
    Seq<u8>,
>;

/// `Envelope::try_from_cbor_data`, then `extract_optional_object_for_predicate`
/// of a byte string: a function of the bytes and the predicate.
#[verifier::external_body]
pub(crate) fn envelope_optional_bytes(bytes: &[u8], predicate: &str) -> (r: Option<Vec<u8>>)
    requires
        envelope_nesting_ok(bytes@),
    ensures
        bytes_view(r) == envelope_optional_bytes_of(bytes@, predicate@),
{
    match Envelope::try_from_cbor_data(bytes.to_vec()).ok()?.extract_optional_object_for_predicate::<
        ByteString,
    >(predicate) {
        Ok(Some(b)) => Some(b.to_vec()),
        _ => None,
    }
}

/// The byte-string object of the one assertion with the predicate, in the
/// envelope encoded by the bytes; `None` when there is no envelope, not
/// exactly one such assertion, or its object is not a byte string.
pub uninterp spec fn envelope_bytes_object_of(bytes: Seq<u8>, predicate: Seq<char>) -> Option<
    Seq<u8>,
>;

/// `Envelope::try_from_cbor_data`, then `extract_object_for_predicate` of a
/// byte string: a function of the bytes and the predicate.
#[verifier::external_body]
pub(crate) fn envelope_bytes_object(bytes: &[u8], predicate: &str) -> (r: Option<Vec<u8>>)
    requires
        envelope_nesting_ok(bytes@),
    ensures
        bytes_view(r) == envelope_bytes_object_of(bytes@, predicate@),
{
    match Envelope::try_from_cbor_data(bytes.to_vec()).ok()?.extract_object_for_predicate::<
        ByteString,
    >(predicate) {
        Ok(b) => Some(b.to_vec()),
        Err(_) => None,
    }
}

/// The number of assertions with the predicate
/// (`Envelope::assertions_with_predicate`) in the envelope the bytes encode.
pub uninterp spec fn envelope_assertion_count_of(bytes: Seq<u8>, predicate: Seq<char>) -> nat;

/// Two encodings read alike: every reading of this module gives the same on
/// both.
pub open spec fn envelope_reads_alike(a: Seq<u8>, b: Seq<u8>) -> bool {
    &&& envelope_subject_shape_of(a) == envelope_subject_shape_of(b)
    &&& envelope_subject_digest_of(a) == envelope_subject_digest_of(b)
    &&& envelope_unwrapped_of(a) == envelope_unwrapped_of(b)
    &&& forall|k: Seq<char>| #[trigger] envelope_map_text_of(a, k) == envelope_map_text_of(b, k)
    &&& forall|k: Seq<char>| #[trigger] envelope_map_u32_of(a, k) == envelope_map_u32_of(b, k)
    &&& forall|k: Seq<char>| #[trigger] envelope_map_bytes_of(a, k) == envelope_map_bytes_of(b, k)
    &&& forall|p: Seq<char>| #[trigger]
        envelope_assertion_count_of(a, p) == envelope_assertion_count_of(b, p)
    &&& forall|p: Seq<char>| #[trigger] envelope_text_list_of(a, p) == envelope_text_list_of(b, p)
    &&& forall|p: Seq<char>| #[trigger]
        envelope_object_leaf_of(a, p) == envelope_object_leaf_of(b, p)
    &&& forall|p: Seq<char>| #[trigger]
        envelope_optional_text_of(a, p) == envelope_optional_text_of(b, p)
    &&& forall|p: Seq<char>| #[trigger]
        envelope_optional_bytes_of(a, p) == envelope_optional_bytes_of(b, p)
    &&& forall|p: Seq<char>| #[trigger]
        envelope_bytes_object_of(a, p) == envelope_bytes_object_of(b, p)
}

/// `Envelope::wrap` of the envelope the bytes encode, then `to_cbor_data`:
/// an envelope with no assertions whose subject is the wrapped envelope, so
/// that unwrapping it gives an encoding that reads, and nests, as the bytes
/// do (an envelope decodes from its encoding unchanged). The wrapper adds one
/// envelope tag around the input's encoding.
#[verifier::external_body]
pub(crate) fn envelope_wrap_cbor(bytes: &[u8]) -> (r: Vec<u8>)
    requires
        envelope_nesting_ok(bytes@),
        envelope_subject_shape_of(bytes@) is Some,
    ensures
        forall|n: nat| nesting_ok(bytes@, n) ==> #[trigger] nesting_ok(r@, n + 8),
        forall|n: nat|
            nesting_ok(bytes@, n) ==> #[trigger] nesting_ok(envelope_unwrapped_of(r@)->0, n),
        envelope_unwrapped_of(r@) is Some,
        envelope_reads_alike(envelope_unwrapped_of(r@)->0, bytes@),
        envelope_subject_shape_of(r@) == Some(SubjectShape::NotLeaf),
        envelope_subject_digest_of(r@) is Some,
        forall|p: Seq<char>| #[trigger] envelope_assertion_count_of(r@, p) == 0,
        forall|p: Seq<char>| #[trigger] envelope_optional_bytes_of(r@, p) is None,
        forall|p: Seq<char>| #[trigger] envelope_bytes_object_of(r@, p) is None,
{
    match Envelope::try_from_cbor_data(bytes.to_vec()) {
        Ok(env) => env.wrap().to_cbor_data(),
        Err(_) => Vec::new(),
    }
}

/// The envelope `r` reads as `b` does, but for the assertions with the
/// predicate: adding an assertion keeps the subject and the assertions with
/// every other ASCII predicate. (Predicates are compared by the digest of
/// their encoding, in which text is in normal form C; two distinct ASCII
/// texts are distinct in that form.)
pub open spec fn envelope_extends(r: Seq<u8>, b: Seq<u8>, predicate: Seq<char>) -> bool {
    &&& envelope_subject_shape_of(r) == envelope_subject_shape_of(b)
    &&& envelope_subject_digest_of(r) == envelope_subject_digest_of(b)
    &&& envelope_unwrapped_of(r) == envelope_unwrapped_of(b)
    &&& forall|k: Seq<char>| #[trigger] envelope_map_text_of(r, k) == envelope_map_text_of(b, k)
    &&& forall|k: Seq<char>| #[trigger] envelope_map_u32_of(r, k) == envelope_map_u32_of(b, k)
    &&& forall|k: Seq<char>| #[trigger] envelope_map_bytes_of(r, k) == envelope_map_bytes_of(b, k)
    &&& forall|p: Seq<char>|
        is_ascii_chars(p) && p != predicate ==> #[trigger] envelope_assertion_count_of(r, p)
            == envelope_assertion_count_of(b, p)
    &&& forall|p: Seq<char>|
        is_ascii_chars(p) && p != predicate ==> #[trigger] envelope_text_list_of(r, p) == envelope_text_list_of(b, p)
    &&& forall|p: Seq<char>|
        is_ascii_chars(p) && p != predicate ==> #[trigger] envelope_object_leaf_of(r, p) == envelope_object_leaf_of(
            b,
            p,
        )
    &&& forall|p: Seq<char>|
        is_ascii_chars(p) && p != predicate ==> #[trigger] envelope_optional_text_of(r, p)
            == envelope_optional_text_of(b, p)
    &&& forall|p: Seq<char>|
        is_ascii_chars(p) && p != predicate ==> #[trigger] envelope_optional_bytes_of(r, p)
            == envelope_optional_bytes_of(b, p)
    &&& forall|p: Seq<char>|
        is_ascii_chars(p) && p != predicate ==> #[trigger] envelope_bytes_object_of(r, p)
            == envelope_bytes_object_of(b, p)
}

/// The text a reader gets back for a written text: dcbor encodes text in
/// Unicode normal form C, which leaves ASCII text as it is.
pub open spec fn stored_text(t: Seq<char>) -> Seq<char> {
    if is_ascii_chars(t) {
        t
    } else {
        nfc_text_of(t)
    }
}

/// The texts a reader gets back for written texts.
pub open spec fn stored_texts(l: Seq<Seq<char>>) -> Seq<Seq<char>> {
    l.map_values(|t: Seq<char>| stored_text(t))
}

/// Unicode normal form C of a text, in which dcbor encodes every text.
pub uninterp spec fn nfc_text_of(t: Seq<char>) -> Seq<char>;

/// `Envelope::add_assertion` (unsalted) of a byte string to the envelope the
/// bytes encode, then `to_cbor_data`. The subject, and the assertions with
/// other predicates, are kept; when the envelope had no assertion with the
/// predicate, it now has exactly the one added. The new assertion sits in the
/// envelope's node array (which a leaf or wrapped subject moves one level
/// into), and nests at most six levels below the top; so the result nests
/// at most eight levels deeper than the input.
#[verifier::external_body]
pub(crate) fn envelope_add_bytes_cbor(bytes: &[u8], predicate: &str, value: &[u8]) -> (r: Vec<u8>)
    requires
        envelope_nesting_ok(bytes@),
        envelope_subject_shape_of(bytes@) is Some,
        is_ascii_chars(predicate@),
    ensures
        forall|n: nat| nesting_ok(bytes@, n) ==> #[trigger] nesting_ok(r@, n + 8),
        envelope_extends(r@, bytes@, predicate@),
        envelope_assertion_count_of(bytes@, predicate@) == 0 ==> {
            &&& envelope_assertion_count_of(r@, predicate@) == 1
            &&& envelope_bytes_object_of(r@, predicate@) == Some(value@)
            &&& envelope_optional_bytes_of(r@, predicate@) == Some(value@)
        },
{
    match Envelope::try_from_cbor_data(bytes.to_vec()) {
        Ok(env) => env.add_assertion(predicate, ByteString::from(value.to_vec())).to_cbor_data(),
        Err(_) => Vec::new(),
    }
}

/// `Envelope::add_assertion_salted` (salted) of a list of texts to the
/// envelope the bytes encode, then `to_cbor_data`; as for
/// [`envelope_add_bytes_cbor`], the list is read back from the only
/// assertion with the predicate.
#[verifier::external_body]
pub(crate) fn envelope_add_text_list_cbor(bytes: &[u8], predicate: &str, items: Vec<String>) -> (r:
    Vec<u8>)
    requires
        envelope_nesting_ok(bytes@),
        envelope_subject_shape_of(bytes@) is Some,
        is_ascii_chars(predicate@),
    ensures
        forall|n: nat| nesting_ok(bytes@, n) ==> #[trigger] nesting_ok(r@, n + 8),
        envelope_extends(r@, bytes@, predicate@),
        envelope_assertion_count_of(bytes@, predicate@) == 0 ==> {
            &&& envelope_assertion_count_of(r@, predicate@) == 1
            &&& envelope_text_list_of(r@, predicate@) == Some(stored_texts(texts(items@)))
        },
{
    match Envelope::try_from_cbor_data(bytes.to_vec()) {
        Ok(env) => env.add_assertion_salted(predicate, items, true).to_cbor_data(),
        Err(_) => Vec::new(),
    }
}

/// `Envelope::add_assertion_salted` (salted) of a tagged unsigned integer
/// (`CBOR::to_tagged_value`) to the envelope the bytes encode, then
/// `to_cbor_data`; the object read back is that tagged leaf. It nests as
/// for [`envelope_add_bytes_cbor`].
#[verifier::external_body]
pub(crate) fn envelope_add_tagged_cbor(bytes: &[u8], predicate: &str, tag: u64, value: u64) -> (r:
    Vec<u8>)
    requires
        envelope_nesting_ok(bytes@),
        envelope_subject_shape_of(bytes@) is Some,
        is_ascii_chars(predicate@),
    ensures
        forall|n: nat| nesting_ok(bytes@, n) ==> #[trigger] nesting_ok(r@, n + 8),
        envelope_extends(r@, bytes@, predicate@),
        envelope_assertion_count_of(bytes@, predicate@) == 0 ==> {
            &&& envelope_assertion_count_of(r@, predicate@) == 1
            &&& envelope_object_leaf_of(r@, predicate@) == Some(
                LeafShape::Tagged { tag, unsigned: Some(value) },
            )
        },
{
    let tagged = CBOR::to_tagged_value(Tag::with_value(tag), value);
    match Envelope::try_from_cbor_data(bytes.to_vec()) {
        Ok(env) => env.add_assertion_salted(predicate, tagged, true).to_cbor_data(),
        Err(_) => Vec::new(),
    }
}

/// `Envelope::add_assertion_salted` (salted) of a text to the envelope the
/// bytes encode, then `to_cbor_data`; the text read back is the one written,
/// in normal form C. It nests as for [`envelope_add_bytes_cbor`].
#[verifier::external_body]
pub(crate) fn envelope_add_text_cbor(bytes: &[u8], predicate: &str, text: &str) -> (r: Vec<u8>)
    requires
        envelope_nesting_ok(bytes@),
        envelope_subject_shape_of(bytes@) is Some,
        is_ascii_chars(predicate@),
    ensures
        forall|n: nat| nesting_ok(bytes@, n) ==> #[trigger] nesting_ok(r@, n + 8),
        envelope_extends(r@, bytes@, predicate@),
        envelope_assertion_count_of(bytes@, predicate@) == 0 ==> {
            &&& envelope_assertion_count_of(r@, predicate@) == 1
            &&& envelope_optional_text_of(r@, predicate@) == Some(
                if is_ascii_chars(text@) {
                    text@
                } else {
                    nfc_text_of(text@)
                },
            )
        },
{
    match Envelope::try_from_cbor_data(bytes.to_vec()) {
        Ok(env) => env.add_assertion_salted(predicate, text, true).to_cbor_data(),
        Err(_) => Vec::new(),
    }
}

/// A value under a text key of a CBOR map: a text, an unsigned integer, a
/// byte string, or anything else.
pub enum MapEntry {
    Text(Seq<char>),
    Unsigned(u64),
    Bytes(Seq<u8>),
    Other,
}

/// The entries of a CBOR map under text keys.
pub uninterp spec fn cbor_map_entries(m: bc_envelope::prelude::Map) -> Map<Seq<char>, MapEntry>;

/// What reading a text under the key gives.
pub open spec fn entry_text(e: Map<Seq<char>, MapEntry>, k: Seq<char>) -> Option<Seq<char>> {
    if e.dom().contains(k) {
        match e[k] {
            MapEntry::Text(t) => Some(stored_text(t)),
            _ => None,
        }
    } else {
        None
    }
}

/// What reading a byte string under the key gives.
pub open spec fn entry_bytes(e: Map<Seq<char>, MapEntry>, k: Seq<char>) -> Option<Seq<u8>> {
    if e.dom().contains(k) {
        match e[k] {
            MapEntry::Bytes(b) => Some(b),
            _ => None,
        }
    } else {
        None
    }
}

/// What reading an unsigned 32-bit number under the key gives, where the
/// entry is no `Other`.
pub open spec fn entry_u32(e: Map<Seq<char>, MapEntry>, k: Seq<char>) -> Option<u32> {
    if e.dom().contains(k) {
        match e[k] {
            MapEntry::Unsigned(v) => if v <= 0xffff_ffff {
                Some(v as u32)
            } else {
                None
            },
            _ => None,
        }
    } else {
        None
    }
}

/// `Envelope::new` with the map as its leaf subject, then `to_cbor_data`: an
/// envelope without assertions whose subject map reads, under an ASCII key,
/// what the map holds there (the map's own text keys being ASCII). The
/// encoding nests four levels at most: the envelope tag, the leaf tag, the
/// map, and its flat values.
#[verifier::external_body]
pub(crate) fn envelope_of_map_cbor(m: bc_envelope::prelude::Map) -> (r: Vec<u8>)
    requires
        forall|k: Seq<char>| cbor_map_entries(m).dom().contains(k) ==> is_ascii_chars(k),
        forall|k: Seq<char>|
            cbor_map_entries(m).dom().contains(k) ==> !(cbor_map_entries(m)[k] is Other),
    ensures
        nesting_ok(r@, 4),
        envelope_subject_shape_of(r@) == Some(SubjectShape::Entries),
        forall|k: Seq<char>|
            is_ascii_chars(k) ==> #[trigger] envelope_map_text_of(r@, k) == entry_text(
                cbor_map_entries(m),
                k,
            ),
        forall|k: Seq<char>|
            is_ascii_chars(k) ==> #[trigger] envelope_map_bytes_of(r@, k) == entry_bytes(
                cbor_map_entries(m),
                k,
            ),
        forall|k: Seq<char>|
            is_ascii_chars(k) && !(cbor_map_entries(m).dom().contains(k) && cbor_map_entries(m)[k]
                is Other) ==> #[trigger] envelope_map_u32_of(r@, k) == entry_u32(
                cbor_map_entries(m),
                k,
            ),
        forall|p: Seq<char>| #[trigger] envelope_assertion_count_of(r@, p) == 0,
        forall|p: Seq<char>| #[trigger] envelope_text_list_of(r@, p) is None,
        forall|p: Seq<char>| #[trigger] envelope_object_leaf_of(r@, p) is None,
        forall|p: Seq<char>| #[trigger] envelope_optional_text_of(r@, p) is None,
        forall|p: Seq<char>| #[trigger] envelope_optional_bytes_of(r@, p) is None,
        forall|p: Seq<char>| #[trigger] envelope_bytes_object_of(r@, p) is None,
{
    Envelope::new(CBOR::from(m)).to_cbor_data()
}

/// `Map::new`: an empty map.
#[verifier::external_body]
pub(crate) fn new_map() -> (r: bc_envelope::prelude::Map)
    ensures
        cbor_map_entries(r).dom().is_empty(),
{
    bc_envelope::prelude::Map::new()
}

/// `Map::insert` of a text value under an ASCII key: the entry under the key
/// becomes the text. (Keys are compared by their encoding, in which text is
/// in normal form C; an ASCII key is its own normal form.)
#[verifier::external_body]
pub(crate) fn map_insert_text(m: &mut bc_envelope::prelude::Map, key: &str, value: &str)
    requires
        is_ascii_chars(key@),
    ensures
        cbor_map_entries(*final(m)) == cbor_map_entries(*old(m)).insert(
            key@,
            MapEntry::Text(value@),
        ),
{
    m.insert(key, value)
}

/// `Map::insert` of an unsigned 32-bit value under an ASCII key: the entry
/// under the key becomes the number.
#[verifier::external_body]
pub(crate) fn map_insert_u32(m: &mut bc_envelope::prelude::Map, key: &str, value: u32)
    requires
        is_ascii_chars(key@),
    ensures
        cbor_map_entries(*final(m)) == cbor_map_entries(*old(m)).insert(
            key@,
            MapEntry::Unsigned(value as u64),
        ),
{
    m.insert(key, value)
}

/// `Map::insert` of a byte string under an ASCII key: the entry under the
/// key becomes the bytes.
#[verifier::external_body]
pub(crate) fn map_insert_bytes(m: &mut bc_envelope::prelude::Map, key: &str, value: &[u8])
    requires
        is_ascii_chars(key@),
    ensures
        cbor_map_entries(*final(m)) == cbor_map_entries(*old(m)).insert(
            key@,
            MapEntry::Bytes(value@),
        ),
{
    m.insert(key, ByteString::from(value.to_vec()))
}

} // verus!
