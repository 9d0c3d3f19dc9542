//! Challenge and response wire structures, and the domain-separated payload
//! that a claimant signs.

use vstd::prelude::*;
use vstd::utf8::{encode_utf8, is_ascii_chars, is_ascii_chars_encode_utf8};

use crate::auth::cbor::{
    below_2_64, canonical, decode, enc, entries_canonical, field_fault, keys_canonical,
    lemma_ascii_key_lt, lemma_entries_canonical, lemma_entries_view, lemma_items_view,
    lemma_lookup_at, lookup, SpecValue, Value,
};
use crate::auth::algorithm::{ClassicalAlg, PqAlg};
use crate::auth::error::{AuthError, Fault};
use crate::auth::key::{
    classical_key_value, classical_of, classical_sig_value, key_fault, pq_key_value, pq_of,
    pq_sig_value, ClassicalPublicKey, ClassicalSignature, PqPublicKey, PqSignature,
};
use crate::seqs::to_vec;

verus! {

broadcast use vstd::std_specs::vec::group_vec_axioms;

/// Current protocol version.
pub const VERSION: u64 = 1;

/// Domain-separation context tag: distinguishes these signatures from any
/// other use of the same key.
pub const CONTEXT: &'static str = "identikey-auth/v1";

/// Purpose tag of a login (challenge) proof.
pub const PURPOSE_CHALLENGE: &'static str = "challenge";

/// Minimum length of a verifier-issued nonce, in bytes.
pub const MIN_NONCE_LEN: usize = 16;

/// A verifier-issued challenge.
#[derive(Clone, Debug, PartialEq, Eq)]
pub struct Challenge {
    pub version: u64,
    pub audience: String,
    pub nonce: Vec<u8>,
    pub issued_at: u64,
    pub expires_at: u64,
}

/// The model of a [`Challenge`].
pub struct ChallengeView {
    pub version: u64,
    pub audience: Seq<char>,
    pub nonce: Seq<u8>,
    pub issued_at: u64,
    pub expires_at: u64,
}

impl View for Challenge {
    type V = ChallengeView;

    open spec fn view(&self) -> ChallengeView {
        ChallengeView {
            version: self.version,
            audience: self.audience@,
            nonce: self.nonce@,
            issued_at: self.issued_at,
            expires_at: self.expires_at,
        }
    }
}

/// The map a challenge is encoded as, with its keys in canonical order.
pub open spec fn challenge_value(c: ChallengeView) -> SpecValue {
    SpecValue::TextMap(
        seq![
            ("v"@, SpecValue::Uint(c.version)),
            ("aud"@, SpecValue::Text(c.audience)),
            ("exp"@, SpecValue::Uint(c.expires_at)),
            ("iat"@, SpecValue::Uint(c.issued_at)),
            ("nonce"@, SpecValue::Bytes(c.nonce)),
        ],
    )
}

/// The challenge a decoded value describes: a map with the five fields, each
/// of the right type. Other keys are ignored.
pub open spec fn challenge_of(v: SpecValue) -> Option<ChallengeView> {
    match v {
        SpecValue::TextMap(e) => match (
            lookup(e, "v"@),
            lookup(e, "aud"@),
            lookup(e, "nonce"@),
            lookup(e, "iat"@),
            lookup(e, "exp"@),
        ) {
            (
                Some(SpecValue::Uint(version)),
                Some(SpecValue::Text(audience)),
                Some(SpecValue::Bytes(nonce)),
                Some(SpecValue::Uint(issued_at)),
                Some(SpecValue::Uint(expires_at)),
            ) => Some(ChallengeView { version, audience, nonce, issued_at, expires_at }),
            _ => None,
        },
        _ => None,
    }
}

/// The error reported for a value that describes no challenge: the first
/// field, in the order v, aud, nonce, iat, exp, that is absent or mistyped.
pub open spec fn challenge_fault(v: SpecValue) -> Fault {
    match v {
        SpecValue::TextMap(e) => if !(lookup(e, "v"@) matches Some(SpecValue::Uint(_))) {
            field_fault(e, "v"@)
        } else if !(lookup(e, "aud"@) matches Some(SpecValue::Text(_))) {
            field_fault(e, "aud"@)
        } else if !(lookup(e, "nonce"@) matches Some(SpecValue::Bytes(_))) {
            field_fault(e, "nonce"@)
        } else if !(lookup(e, "iat"@) matches Some(SpecValue::Uint(_))) {
            field_fault(e, "iat"@)
        } else {
            field_fault(e, "exp"@)
        },
        _ => Fault::Cbor,
    }
}

/// The challenge that `data` encodes, if any.
pub open spec fn challenge_decoded(data: Seq<u8>) -> Option<ChallengeView> {
    match decode(data) {
        Some(v) => challenge_of(v),
        None => None,
    }
}

/// The error reported for bytes that encode no challenge.
pub open spec fn challenge_decode_fault(data: Seq<u8>) -> Fault {
    match decode(data) {
        Some(v) => challenge_fault(v),
        None => Fault::Cbor,
    }
}

/// Read an unsigned-integer field.
fn uint_field(v: &Value, key: &str) -> (r: Result<u64, AuthError>)
    requires
        v@ is TextMap,
    ensures
        match r {
            Ok(n) => lookup(v@->TextMap_0, key@) == Some(SpecValue::Uint(n)),
            Err(e) => !(lookup(v@->TextMap_0, key@) matches Some(SpecValue::Uint(_))) && e@
                == field_fault(v@->TextMap_0, key@),
        },
{
    v.get(key)?.as_uint()
}

impl Challenge {
    fn to_value(&self) -> (r: Value)
        ensures
            r@ == challenge_value(self@),
    {
        let r = crate::auth::cbor::map(
            vec![
                ("v", Value::Uint(self.version)),
                ("aud", Value::Text(self.audience.clone())),
                ("exp", Value::Uint(self.expires_at)),
                ("iat", Value::Uint(self.issued_at)),
                ("nonce", Value::Bytes(to_vec(self.nonce.as_slice()))),
            ],
        );
        assert(r@->TextMap_0 =~= challenge_value(self@)->TextMap_0);
        r
    }

    /// Canonical CBOR bytes of this challenge.
    pub fn to_bytes(&self) -> (r: Vec<u8>)
        ensures
            r@ == enc(challenge_value(self@)),
    {
        self.to_value().to_bytes()
    }

    fn from_value(v: &Value) -> (r: Result<Self, AuthError>)
        ensures
            match r {
                Ok(c) => challenge_of(v@) == Some(c@),
                Err(e) => challenge_of(v@) is None && e@ == challenge_fault(v@),
            },
    {
        if !(matches!(v, Value::TextMap(_))) {
            return Err(AuthError::Cbor("expected map".to_owned()));
        }
        let version = uint_field(v, "v")?;
        let audience = v.get("aud")?.as_text()?.to_owned();
        let nonce = to_vec(v.get("nonce")?.as_bytes()?);
        let issued_at = uint_field(v, "iat")?;
        let expires_at = uint_field(v, "exp")?;
        Ok(Self { version, audience, nonce, issued_at, expires_at })
    }

    /// Parse canonical challenge bytes.
    pub fn from_bytes(data: &[u8]) -> (r: Result<Self, AuthError>)
        ensures
            match r {
                Ok(c) => challenge_decoded(data@) == Some(c@),
                Err(e) => challenge_decoded(data@) is None && e@ == challenge_decode_fault(data@),
            },
    {
        let v = Value::from_bytes(data)?;
        Self::from_value(&v)
    }
}

/// The keys of a challenge map are in canonical order, and the map is
/// canonical when its text and bytes fit 64-bit lengths.
pub proof fn lemma_challenge_value_canonical(c: ChallengeView)
    requires
        below_2_64(encode_utf8(c.audience).len()),
        below_2_64(c.nonce.len()),
    ensures
        canonical(challenge_value(c)),
{
    reveal_strlit("v");
    reveal_strlit("aud");
    reveal_strlit("exp");
    reveal_strlit("iat");
    reveal_strlit("nonce");
    let e = challenge_value(c)->TextMap_0;
    lemma_ascii_key_lt("v"@, "aud"@, -1);
    lemma_ascii_key_lt("v"@, "exp"@, -1);
    lemma_ascii_key_lt("v"@, "iat"@, -1);
    lemma_ascii_key_lt("v"@, "nonce"@, -1);
    lemma_ascii_key_lt("aud"@, "exp"@, 0);
    lemma_ascii_key_lt("aud"@, "iat"@, 0);
    lemma_ascii_key_lt("aud"@, "nonce"@, -1);
    lemma_ascii_key_lt("exp"@, "iat"@, 0);
    lemma_ascii_key_lt("exp"@, "nonce"@, -1);
    lemma_ascii_key_lt("iat"@, "nonce"@, -1);
    assert(keys_canonical(e));
    assert forall|i: int| 0 <= i < e.len() implies below_2_64(encode_utf8(#[trigger] e[i].0).len())
        by {
        is_ascii_chars_encode_utf8(e[i].0);
    }
    lemma_entries_canonical(e);
}

/// Each field of a challenge map is found under its key.
proof fn lemma_challenge_lookups(c: ChallengeView)
    ensures
        challenge_of(challenge_value(c)) == Some(c),
{
    reveal_strlit("v");
    reveal_strlit("aud");
    reveal_strlit("exp");
    reveal_strlit("iat");
    reveal_strlit("nonce");
    let e = challenge_value(c)->TextMap_0;
    assert("aud"@[0] != "exp"@[0] && "aud"@[0] != "iat"@[0] && "exp"@[0] != "iat"@[0]);
    assert forall|i: int, j: int| 0 <= i < j < 5 implies #[trigger] e[i].0 != #[trigger] e[j].0 by {
        if e[i].0.len() == e[j].0.len() {
            assert(e[i].0[0] != e[j].0[0]);
        }
    }
    lemma_lookup_at(e, 0, "v"@);
    lemma_lookup_at(e, 1, "aud"@);
    lemma_lookup_at(e, 2, "exp"@);
    lemma_lookup_at(e, 3, "iat"@);
    lemma_lookup_at(e, 4, "nonce"@);
}

/// Reading back the bytes of a challenge gives the same challenge.
pub proof fn law_challenge_roundtrip(c: ChallengeView)
    requires
        below_2_64(encode_utf8(c.audience).len()),
        below_2_64(c.nonce.len()),
    ensures
        challenge_decoded(enc(challenge_value(c))) == Some(c),
{
    lemma_challenge_value_canonical(c);
    crate::auth::cbor::law_decode_enc(challenge_value(c));
    lemma_challenge_lookups(c);
}

// ---------------------------------------------------------------------------
// Signed statements: a subject, the classical key and signature over it, and
// optionally a post-quantum key and signature.
// ---------------------------------------------------------------------------

/// The model of a signed statement: the subject bytes (the challenge for a
/// response, the node id for a node attestation) and the keys and signatures.
pub struct SignedView {
    pub subject: Seq<u8>,
    pub public_key: (ClassicalAlg, Seq<u8>),
    pub signature: (ClassicalAlg, Seq<u8>),
    pub pq: Option<((PqAlg, Seq<u8>), (PqAlg, Seq<u8>))>,
}

/// The model of an optional post-quantum key and signature.
pub open spec fn pq_view(pq: Option<(PqPublicKey, PqSignature)>) -> Option<
    ((PqAlg, Seq<u8>), (PqAlg, Seq<u8>)),
> {
    match pq {
        Some((k, s)) => Some((k@, s@)),
        None => None,
    }
}

/// The map a signed statement is encoded as, with the subject under
/// `subject_key` and the keys in canonical order.
pub open spec fn signed_value(subject_key: Seq<char>, s: SignedView) -> SpecValue {
    let base = seq![
        ("pub"@, classical_key_value(s.public_key)),
        ("sig"@, classical_sig_value(s.signature)),
        (subject_key, SpecValue::Bytes(s.subject)),
    ];
    SpecValue::TextMap(
        match s.pq {
            Some((k, g)) => base + seq![("pqpub"@, pq_key_value(k)), ("pqsig"@, pq_sig_value(g))],
            None => base,
        },
    )
}

/// The post-quantum part a map describes: both entries present and well
/// formed, or both absent. `None` when it is malformed or only one is there.
pub open spec fn pq_part(e: Seq<(Seq<char>, SpecValue)>) -> Option<
    Option<((PqAlg, Seq<u8>), (PqAlg, Seq<u8>))>,
> {
    match (lookup(e, "pqpub"@), lookup(e, "pqsig"@)) {
        (Some(a), Some(b)) => match (pq_of(a, "key"@), pq_of(b, "sig"@)) {
            (Some(k), Some(g)) => Some(Some((k, g))),
            _ => None,
        },
        (None, None) => Some(None),
        _ => None,
    }
}

/// The subject and classical part a map describes, if well formed.
pub open spec fn classical_part(v: SpecValue, subject_key: Seq<char>) -> Option<
    (Seq<u8>, (ClassicalAlg, Seq<u8>), (ClassicalAlg, Seq<u8>)),
> {
    match v {
        SpecValue::TextMap(e) => match (lookup(e, subject_key), lookup(e, "pub"@), lookup(e, "sig"@)) {
            (Some(SpecValue::Bytes(b)), Some(pv), Some(sv)) => match (
                classical_of(pv, "key"@),
                classical_of(sv, "sig"@),
            ) {
                (Some(pk), Some(sig)) => Some((b, pk, sig)),
                _ => None,
            },
            _ => None,
        },
        _ => None,
    }
}

/// The signed statement a decoded value describes, if any.
pub open spec fn signed_of(v: SpecValue, subject_key: Seq<char>) -> Option<SignedView> {
    match classical_part(v, subject_key) {
        Some((b, pk, sig)) => match pq_part(v->TextMap_0) {
            Some(pq) => Some(SignedView { subject: b, public_key: pk, signature: sig, pq }),
            None => None,
        },
        None => None,
    }
}

/// Exactly one of the two post-quantum entries is present.
pub open spec fn pq_dangling(e: Seq<(Seq<char>, SpecValue)>) -> bool {
    lookup(e, "pqpub"@) is Some != lookup(e, "pqsig"@) is Some
}

/// The error reported for a value that describes no signed statement.
pub open spec fn signed_fault(v: SpecValue, subject_key: Seq<char>) -> Fault {
    match v {
        SpecValue::TextMap(e) => if !(lookup(e, subject_key) matches Some(SpecValue::Bytes(_))) {
            field_fault(e, subject_key)
        } else if lookup(e, "pub"@) is None {
            field_fault(e, "pub"@)
        } else if classical_of(lookup(e, "pub"@)->0, "key"@) is None {
            key_fault(lookup(e, "pub"@)->0, "key"@)
        } else if lookup(e, "sig"@) is None {
            field_fault(e, "sig"@)
        } else if classical_of(lookup(e, "sig"@)->0, "sig"@) is None {
            key_fault(lookup(e, "sig"@)->0, "sig"@)
        } else if pq_dangling(e) {
            Fault::PqDangling
        } else if pq_of(lookup(e, "pqpub"@)->0, "key"@) is None {
            key_fault(lookup(e, "pqpub"@)->0, "key"@)
        } else {
            key_fault(lookup(e, "pqsig"@)->0, "sig"@)
        },
        _ => Fault::Cbor,
    }
}

/// The signed statement that `data` encodes, if any.
pub open spec fn signed_decoded(data: Seq<u8>, subject_key: Seq<char>) -> Option<SignedView> {
    match decode(data) {
        Some(v) => signed_of(v, subject_key),
        None => None,
    }
}

/// The error reported for bytes that encode no signed statement.
pub open spec fn signed_decode_fault(data: Seq<u8>, subject_key: Seq<char>) -> Fault {
    match decode(data) {
        Some(v) => signed_fault(v, subject_key),
        None => Fault::Cbor,
    }
}

/// Encode a signed statement.
pub(crate) fn signed_to_bytes(
    subject_key: &'static str,
    subject: &[u8],
    public_key: &ClassicalPublicKey,
    signature: &ClassicalSignature,
    pq: &Option<(PqPublicKey, PqSignature)>,
) -> (r: Vec<u8>)
    ensures
        r@ == enc(
            signed_value(
                subject_key@,
                SignedView {
                    subject: subject@,
                    public_key: public_key@,
                    signature: signature@,
                    pq: pq_view(*pq),
                },
            ),
        ),
{
    let mut entries = vec![
        ("pub", public_key.to_value()),
        ("sig", signature.to_value()),
        (subject_key, Value::Bytes(to_vec(subject))),
    ];
    let ghost base = entries@;
    if let Some((pqpub, pqsig)) = pq {
        entries.push(("pqpub", pqpub.to_value()));
        entries.push(("pqsig", pqsig.to_value()));
    }
    let v = crate::auth::cbor::map(entries);
    let ghost want = signed_value(
        subject_key@,
        SignedView {
            subject: subject@,
            public_key: public_key@,
            signature: signature@,
            pq: pq_view(*pq),
        },
    );
    assert(v@->TextMap_0 =~= want->TextMap_0);
    v.to_bytes()
}

/// Read a signed statement from a decoded value.
pub(crate) fn signed_from_value(v: &Value, subject_key: &str) -> (r: Result<
    (Vec<u8>, ClassicalPublicKey, ClassicalSignature, Option<(PqPublicKey, PqSignature)>),
    AuthError,
>)
    ensures
        match r {
            Ok((b, pk, sig, pq)) => signed_of(v@, subject_key@) == Some(
                SignedView { subject: b@, public_key: pk@, signature: sig@, pq: pq_view(pq) },
            ),
            Err(e) => signed_of(v@, subject_key@) is None && e@ == signed_fault(
                v@,
                subject_key@,
            ),
        },
{
    let subject = to_vec(v.get(subject_key)?.as_bytes()?);
    let public_key = ClassicalPublicKey::from_value(v.get("pub")?)?;
    let signature = ClassicalSignature::from_value(v.get("sig")?)?;
    let pqpub = v.get_opt("pqpub")?;
    let pqsig = v.get_opt("pqsig")?;
    let pq = match (pqpub, pqsig) {
        (Some(pk), Some(sig)) => Some(
            (PqPublicKey::from_value(pk)?, PqSignature::from_value(sig)?),
        ),
        (None, None) => None,
        _ => {
            return Err(AuthError::PqDangling);
        },
    };
    Ok((subject, public_key, signature, pq))
}

/// A signed statement's map is canonical and reads back as the statement,
/// when every length fits 64 bits.
pub proof fn lemma_signed_roundtrip(subject_key: Seq<char>, s: SignedView)
    requires
        subject_key == "chal"@ || subject_key == "node"@,
        below_2_64(s.subject.len()),
        below_2_64(s.public_key.1.len()),
        below_2_64(s.signature.1.len()),
        s.pq matches Some((k, g)) ==> below_2_64(k.1.len()) && below_2_64(g.1.len()),
    ensures
        canonical(signed_value(subject_key, s)),
        signed_of(signed_value(subject_key, s), subject_key) == Some(s),
{
    reveal_strlit("pub");
    reveal_strlit("sig");
    reveal_strlit("chal");
    reveal_strlit("node");
    reveal_strlit("pqpub");
    reveal_strlit("pqsig");
    crate::auth::key::lemma_tag_ascii();
    let e = signed_value(subject_key, s)->TextMap_0;
    lemma_ascii_key_lt("pub"@, "sig"@, 0);
    lemma_ascii_key_lt("pub"@, subject_key, -1);
    lemma_ascii_key_lt("sig"@, subject_key, -1);
    lemma_ascii_key_lt("pub"@, "pqpub"@, -1);
    lemma_ascii_key_lt("pub"@, "pqsig"@, -1);
    lemma_ascii_key_lt("sig"@, "pqpub"@, -1);
    lemma_ascii_key_lt("sig"@, "pqsig"@, -1);
    lemma_ascii_key_lt(subject_key, "pqpub"@, -1);
    lemma_ascii_key_lt(subject_key, "pqsig"@, -1);
    assert(forall|j: int| 0 <= j < 2 ==> "pqpub"@[j] == "pqsig"@[j]);
    lemma_ascii_key_lt("pqpub"@, "pqsig"@, 2);
    assert(keys_canonical(e));
    crate::auth::key::law_key_value_roundtrip(s.public_key, (PqAlg::MlDsa65, Seq::empty()));
    crate::auth::key::lemma_tagged_canonical(
        crate::auth::algorithm::classical_tag(s.public_key.0),
        "key"@,
        s.public_key.1,
    );
    crate::auth::key::lemma_tagged_canonical(
        crate::auth::algorithm::classical_tag(s.signature.0),
        "sig"@,
        s.signature.1,
    );
    crate::auth::key::law_key_value_roundtrip(s.signature, (PqAlg::MlDsa65, Seq::empty()));
    if let Some((k, g)) = s.pq {
        crate::auth::key::lemma_tagged_canonical(
            crate::auth::algorithm::pq_tag(k.0),
            "key"@,
            k.1,
        );
        crate::auth::key::lemma_tagged_canonical(crate::auth::algorithm::pq_tag(g.0), "sig"@, g.1);
        crate::auth::key::law_key_value_roundtrip(s.public_key, k);
        crate::auth::key::law_key_value_roundtrip(s.public_key, g);
    }
    assert forall|i: int| 0 <= i < e.len() implies below_2_64(encode_utf8(#[trigger] e[i].0).len())
        by {
        is_ascii_chars_encode_utf8(e[i].0);
    }
    lemma_entries_canonical(e);
    assert("pub"@[0] != "sig"@[0]);
    assert("pqpub"@[2] != "pqsig"@[2]);
    assert forall|i: int, j: int| 0 <= i < j < e.len() implies #[trigger] e[i].0 != #[trigger] e[j].0
        by {
        if e[i].0.len() == e[j].0.len() {
            if i == 0 && j == 1 {
                assert(e[i].0[0] != e[j].0[0]);
            } else {
                assert(e[i].0[2] != e[j].0[2]);
            }
        }
    }
    lemma_lookup_at(e, 0, "pub"@);
    lemma_lookup_at(e, 1, "sig"@);
    lemma_lookup_at(e, 2, subject_key);
    if s.pq is Some {
        lemma_lookup_at(e, 3, "pqpub"@);
        lemma_lookup_at(e, 4, "pqsig"@);
    } else {
        crate::auth::cbor::lemma_lookup_none(e, "pqpub"@);
        crate::auth::cbor::lemma_lookup_none(e, "pqsig"@);
    }
}

// ---------------------------------------------------------------------------
// Responses
// ---------------------------------------------------------------------------

/// The map value of a domain-separated payload: `[CONTEXT, purpose, body]`.
pub open spec fn payload_value(purpose: Seq<char>, body: Seq<u8>) -> SpecValue {
    SpecValue::Array(
        seq![SpecValue::Text(CONTEXT@), SpecValue::Text(purpose), SpecValue::Bytes(body)],
    )
}

/// Encode `[CONTEXT, purpose, body]`.
pub(crate) fn domain_payload(purpose: &str, body: &[u8]) -> (r: Vec<u8>)
    ensures
        r@ == enc(payload_value(purpose@, body@)),
{
    let v = Value::Array(
        vec![
            Value::Text(CONTEXT.to_owned()),
            Value::Text(purpose.to_owned()),
            Value::Bytes(to_vec(body)),
        ],
    );
    assert(v@ == payload_value(purpose@, body@)) by {
        lemma_items_view(v->Array_0@);
        assert(v@->Array_0 =~= payload_value(purpose@, body@)->Array_0);
    }
    v.to_bytes()
}

/// The domain-separated payload a claimant signs for a challenge:
/// `dcbor([CONTEXT, PURPOSE_CHALLENGE, chal_bytes])`.
pub fn signing_payload(chal_bytes: &[u8]) -> (r: Vec<u8>)
    ensures
        r@ == enc(payload_value(PURPOSE_CHALLENGE@, chal_bytes@)),
{
    domain_payload(PURPOSE_CHALLENGE, chal_bytes)
}

/// A claimant's response to a challenge.
#[derive(Clone, Debug, PartialEq, Eq)]
pub struct Response {
    /// Verbatim canonical bytes of the challenge being answered.
    pub challenge_bytes: Vec<u8>,
    pub public_key: ClassicalPublicKey,
    pub signature: ClassicalSignature,
    /// Optional post-quantum public key and signature (both present, or
    /// neither).
    pub pq: Option<(PqPublicKey, PqSignature)>,
}

impl View for Response {
    type V = SignedView;

    open spec fn view(&self) -> SignedView {
        SignedView {
            subject: self.challenge_bytes@,
            public_key: self.public_key@,
            signature: self.signature@,
            pq: pq_view(self.pq),
        }
    }
}

impl Response {
    pub fn to_bytes(&self) -> (r: Vec<u8>)
        ensures
            r@ == enc(signed_value("chal"@, self@)),
    {
        signed_to_bytes("chal", &self.challenge_bytes, &self.public_key, &self.signature, &self.pq)
    }

    pub fn from_bytes(data: &[u8]) -> (r: Result<Self, AuthError>)
        ensures
            match r {
                Ok(resp) => signed_decoded(data@, "chal"@) == Some(resp@),
                Err(e) => signed_decoded(data@, "chal"@) is None && e@ == signed_decode_fault(
                    data@,
                    "chal"@,
                ),
            },
    {
        let v = Value::from_bytes(data)?;
        let (challenge_bytes, public_key, signature, pq) = signed_from_value(&v, "chal")?;
        Ok(Self { challenge_bytes, public_key, signature, pq })
    }

    /// The signing payload for this response's embedded challenge.
    pub fn signing_payload(&self) -> (r: Vec<u8>)
        ensures
            r@ == enc(payload_value(PURPOSE_CHALLENGE@, self.challenge_bytes@)),
    {
        signing_payload(&self.challenge_bytes)
    }
}

/// Reading back the bytes of a response gives the same response.
pub proof fn law_response_roundtrip(s: SignedView)
    requires
        below_2_64(s.subject.len()),
        below_2_64(s.public_key.1.len()),
        below_2_64(s.signature.1.len()),
        s.pq matches Some((k, g)) ==> below_2_64(k.1.len()) && below_2_64(g.1.len()),
    ensures
        signed_decoded(enc(signed_value("chal"@, s)), "chal"@) == Some(s),
{
    lemma_signed_roundtrip("chal"@, s);
    crate::auth::cbor::law_decode_enc(signed_value("chal"@, s));
}

} // verus!
