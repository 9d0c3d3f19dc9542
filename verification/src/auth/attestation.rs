//! Attestation of a transport node identifier by an identity key.
//!
//! A device's identity key signs a node identifier, giving a self-contained,
//! peer-verifiable link from the identity to that node. Signatures are over
//! `dcbor([CONTEXT, "node-attestation", node_id])`, so a node attestation can
//! never be confused with a login signature.

use vstd::prelude::*;

use crate::auth::cbor::{below_2_64, canonical, enc, law_canonical_encoding_injective, SpecValue};
use crate::auth::challenge::{
    domain_payload, lemma_signed_roundtrip, payload_value, pq_view, signed_decode_fault,
    signed_decoded, signed_from_value, signed_to_bytes, signed_value, SignedView,
    PURPOSE_CHALLENGE, CONTEXT,
};
use crate::auth::error::{AuthError, Fault};
use crate::auth::key::{
    classical_key_value, ClassicalPublicKey, ClassicalSignature, Fingerprint, PqPublicKey,
    PqSignature,
};
use crate::auth::signer::{classical_fault, pq_fault, verify_classical, verify_pq, Signer};
use crate::auth::verify::VerifyPolicy;
use crate::auth::cbor::Value;
use crate::foreign::hash::blake3_digest;
use crate::seqs::to_vec;

verus! {

broadcast use vstd::std_specs::vec::group_vec_axioms;

/// Purpose tag of a node attestation.
pub const PURPOSE_NODE: &'static str = "node-attestation";

/// The payload signed for a node attestation.
pub open spec fn node_payload(node_id: Seq<u8>) -> Seq<u8> {
    enc(payload_value(PURPOSE_NODE@, node_id))
}

/// The domain-separated payload signed for a node attestation:
/// `dcbor([CONTEXT, "node-attestation", node_id])`.
pub fn node_signing_payload(node_id: &[u8]) -> (r: Vec<u8>)
    ensures
        r@ == node_payload(node_id@),
{
    domain_payload(PURPOSE_NODE, node_id)
}

/// A signed link from a device identity key to a transport node id.
#[derive(Clone, Debug, PartialEq, Eq)]
pub struct NodeAttestation {
    /// The attested node identifier.
    pub node_id: Vec<u8>,
    /// The attesting device's classical public key.
    pub public_key: ClassicalPublicKey,
    /// Classical signature over the domain-separated payload.
    pub signature: ClassicalSignature,
    /// Optional post-quantum public key and signature over the same payload.
    pub pq: Option<(PqPublicKey, PqSignature)>,
}

impl View for NodeAttestation {
    type V = SignedView;

    open spec fn view(&self) -> SignedView {
        SignedView {
            subject: self.node_id@,
            public_key: self.public_key@,
            signature: self.signature@,
            pq: pq_view(self.pq),
        }
    }
}

impl NodeAttestation {
    /// The attesting identity's fingerprint.
    pub fn fingerprint(&self) -> (r: Fingerprint)
        ensures
            r@ == blake3_digest(enc(classical_key_value(self.public_key@))),
    {
        self.public_key.fingerprint()
    }

    pub fn to_bytes(&self) -> (r: Vec<u8>)
        ensures
            r@ == enc(signed_value("node"@, self@)),
    {
        signed_to_bytes("node", &self.node_id, &self.public_key, &self.signature, &self.pq)
    }

    pub fn from_bytes(data: &[u8]) -> (r: Result<Self, AuthError>)
        ensures
            match r {
                Ok(a) => signed_decoded(data@, "node"@) == Some(a@),
                Err(e) => signed_decoded(data@, "node"@) is None && e@ == signed_decode_fault(
                    data@,
                    "node"@,
                ),
            },
    {
        let v = Value::from_bytes(data)?;
        let (node_id, public_key, signature, pq) = signed_from_value(&v, "node")?;
        Ok(Self { node_id, public_key, signature, pq })
    }
}

/// Produce an attestation binding this signer's identity to `node_id`.
/// Fails when a signing operation fails.
pub fn attest_node_id<S: Signer>(signer: &S, node_id: &[u8]) -> (r: Result<
    NodeAttestation,
    AuthError,
>)
    ensures
        r matches Ok(a) ==> {
            &&& a.node_id@ == node_id@
            &&& a.public_key@ == signer.identity()
            &&& signer.signs(node_payload(node_id@), a.signature@)
            &&& a.pq matches Some((k, s)) ==> signer.pq_identity() == Some(k@) && signer.pq_signs(
                node_payload(node_id@),
                s@,
            )
            &&& a.pq is Some <==> signer.pq_identity() is Some
        },
{
    let payload = node_signing_payload(node_id);
    let signature = signer.sign_classical(&payload)?;
    let pq = match (signer.pq_public_key(), signer.sign_pq(&payload)?) {
        (Some(pk), Some(sig)) => Some((pk, sig)),
        _ => None,
    };
    Ok(
        NodeAttestation {
            node_id: to_vec(node_id),
            public_key: signer.classical_public_key(),
            signature,
            pq,
        },
    )
}

/// Why an attestation is rejected, or `None` when it verifies: the classical
/// signature must verify, a present post-quantum signature must verify, and
/// one must be present under `PqRequired`.
pub open spec fn attestation_fault(a: SignedView, policy: VerifyPolicy) -> Option<Fault> {
    if classical_fault(a.public_key, node_payload(a.subject), a.signature) is Some {
        classical_fault(a.public_key, node_payload(a.subject), a.signature)
    } else {
        match a.pq {
            Some((k, g)) => pq_fault(k, node_payload(a.subject), g),
            None => if policy == VerifyPolicy::PqRequired {
                Some(Fault::PqRequired)
            } else {
                None
            },
        }
    }
}

/// Verify a peer's attestation over its node id. Stateless; returns the
/// authenticated identity's fingerprint on success. Downgrade-proof, like
/// response verification.
pub fn verify_node_attestation(att: &NodeAttestation, policy: VerifyPolicy) -> (r: Result<
    Fingerprint,
    AuthError,
>)
    ensures
        match r {
            Ok(f) => attestation_fault(att@, policy) is None && f@ == blake3_digest(
                enc(classical_key_value(att.public_key@)),
            ),
            Err(e) => attestation_fault(att@, policy) == Some(e@),
        },
{
    let payload = node_signing_payload(&att.node_id);
    verify_classical(&att.public_key, &payload, &att.signature)?;
    match &att.pq {
        Some((pqpub, pqsig)) => verify_pq(pqpub, &payload, pqsig)?,
        None => {
            if policy == VerifyPolicy::PqRequired {
                return Err(AuthError::PqRequired);
            }
        },
    }
    Ok(att.public_key.fingerprint())
}

/// Reading back the bytes of an attestation gives the same attestation.
pub proof fn law_attestation_roundtrip(s: SignedView)
    requires
        below_2_64(s.subject.len()),
        below_2_64(s.public_key.1.len()),
        below_2_64(s.signature.1.len()),
        s.pq matches Some((k, g)) ==> below_2_64(k.1.len()) && below_2_64(g.1.len()),
    ensures
        signed_decoded(enc(signed_value("node"@, s)), "node"@) == Some(s),
{
    lemma_signed_roundtrip("node"@, s);
    crate::auth::cbor::law_decode_enc(signed_value("node"@, s));
}

/// Domain separation: the payload signed for a login never equals the
/// payload signed for a node attestation, whatever the two subjects are.
pub proof fn law_domain_separation(chal: Seq<u8>, node_id: Seq<u8>)
    requires
        below_2_64(chal.len()),
        below_2_64(node_id.len()),
    ensures
        enc(payload_value(PURPOSE_CHALLENGE@, chal)) != node_payload(node_id),
{
    reveal_strlit("challenge");
    reveal_strlit("node-attestation");
    reveal_strlit("identikey-auth/v1");
    let a = payload_value(PURPOSE_CHALLENGE@, chal);
    let b = payload_value(PURPOSE_NODE@, node_id);
    assert(vstd::utf8::is_ascii_chars(CONTEXT@));
    assert(vstd::utf8::is_ascii_chars(PURPOSE_CHALLENGE@));
    assert(vstd::utf8::is_ascii_chars(PURPOSE_NODE@));
    vstd::utf8::is_ascii_chars_encode_utf8(CONTEXT@);
    vstd::utf8::is_ascii_chars_encode_utf8(PURPOSE_CHALLENGE@);
    vstd::utf8::is_ascii_chars_encode_utf8(PURPOSE_NODE@);
    crate::auth::cbor::lemma_items_canonical(a->Array_0);
    crate::auth::cbor::lemma_items_canonical(b->Array_0);
    assert(canonical(a->Array_0[0]) && canonical(a->Array_0[1]) && canonical(a->Array_0[2]));
    assert(canonical(b->Array_0[0]) && canonical(b->Array_0[1]) && canonical(b->Array_0[2]));
    assert(canonical(a));
    assert(canonical(b));
    if enc(a) == enc(b) {
        law_canonical_encoding_injective(a, b);
        assert(a->Array_0[1] == b->Array_0[1]);
        assert(PURPOSE_CHALLENGE@.len() != PURPOSE_NODE@.len());
    }
}

} // verus!
