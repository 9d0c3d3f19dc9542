//! Self-describing algorithm registry: classical and post-quantum signature
//! algorithms with their wire tags.

use vstd::prelude::*;

use crate::auth::cbor::str_equal;
use crate::auth::error::AuthError;

verus! {

/// Classical (pre-quantum) signature algorithms. The classical key is the
/// identity's primary key; its fingerprint identifies the identity.
#[derive(Clone, Copy, Debug, PartialEq, Eq, Structural)]
pub enum ClassicalAlg {
    /// Ed25519 (EdDSA, RFC 8032).
    Ed25519,
    /// ECDSA over NIST P-256 (secp256r1).
    P256,
}

/// Post-quantum signature algorithms (FIPS 204 / ML-DSA). Optional, always
/// paired with a classical key.
#[derive(Clone, Copy, Debug, PartialEq, Eq, Structural)]
pub enum PqAlg {
    MlDsa44,
    MlDsa65,
    MlDsa87,
}

pub open spec fn classical_tag(a: ClassicalAlg) -> Seq<char> {
    match a {
        ClassicalAlg::Ed25519 => "ed25519"@,
        ClassicalAlg::P256 => "p256"@,
    }
}

pub open spec fn pq_tag(a: PqAlg) -> Seq<char> {
    match a {
        PqAlg::MlDsa44 => "ml-dsa-44"@,
        PqAlg::MlDsa65 => "ml-dsa-65"@,
        PqAlg::MlDsa87 => "ml-dsa-87"@,
    }
}

/// Distinct algorithms have distinct tags.
pub proof fn lemma_tags_distinct()
    ensures
        forall|a: ClassicalAlg, b: ClassicalAlg| classical_tag(a) == classical_tag(b) ==> a == b,
        forall|a: PqAlg, b: PqAlg| pq_tag(a) == pq_tag(b) ==> a == b,
{
    reveal_strlit("ed25519");
    reveal_strlit("p256");
    reveal_strlit("ml-dsa-44");
    reveal_strlit("ml-dsa-65");
    reveal_strlit("ml-dsa-87");
    assert("ed25519"@.len() != "p256"@.len());
    assert("ml-dsa-44"@[8] != "ml-dsa-65"@[8]);
    assert("ml-dsa-44"@[8] != "ml-dsa-87"@[8]);
    assert("ml-dsa-65"@[8] != "ml-dsa-87"@[8]);
}

impl ClassicalAlg {
    pub fn tag(self) -> (t: &'static str)
        ensures
            t@ == classical_tag(self),
    {
        match self {
            ClassicalAlg::Ed25519 => "ed25519",
            ClassicalAlg::P256 => "p256",
        }
    }

    pub fn from_tag(tag: &str) -> (r: Result<Self, AuthError>)
        ensures
            r matches Ok(a) ==> classical_tag(a) == tag@,
            r is Err <==> forall|a: ClassicalAlg| classical_tag(a) != tag@,
            r matches Err(e) ==> (e matches AuthError::UnknownAlg(s) && s@ == tag@),
    {
        if str_equal(tag, "ed25519") {
            assert(classical_tag(ClassicalAlg::Ed25519) == tag@);
            Ok(ClassicalAlg::Ed25519)
        } else if str_equal(tag, "p256") {
            assert(classical_tag(ClassicalAlg::P256) == tag@);
            Ok(ClassicalAlg::P256)
        } else {
            proof {
                assert forall|a: ClassicalAlg| classical_tag(a) != tag@ by {
                    match a {
                        ClassicalAlg::Ed25519 => {},
                        ClassicalAlg::P256 => {},
                    }
                }
            }
            Err(AuthError::UnknownAlg(tag.to_owned()))
        }
    }
}

impl PqAlg {
    pub fn tag(self) -> (t: &'static str)
        ensures
            t@ == pq_tag(self),
    {
        match self {
            PqAlg::MlDsa44 => "ml-dsa-44",
            PqAlg::MlDsa65 => "ml-dsa-65",
            PqAlg::MlDsa87 => "ml-dsa-87",
        }
    }

    pub fn from_tag(tag: &str) -> (r: Result<Self, AuthError>)
        ensures
            r matches Ok(a) ==> pq_tag(a) == tag@,
            r is Err <==> forall|a: PqAlg| pq_tag(a) != tag@,
            r matches Err(e) ==> (e matches AuthError::UnknownAlg(s) && s@ == tag@),
    {
        if str_equal(tag, "ml-dsa-44") {
            assert(pq_tag(PqAlg::MlDsa44) == tag@);
            Ok(PqAlg::MlDsa44)
        } else if str_equal(tag, "ml-dsa-65") {
            assert(pq_tag(PqAlg::MlDsa65) == tag@);
            Ok(PqAlg::MlDsa65)
        } else if str_equal(tag, "ml-dsa-87") {
            assert(pq_tag(PqAlg::MlDsa87) == tag@);
            Ok(PqAlg::MlDsa87)
        } else {
            proof {
                assert forall|a: PqAlg| pq_tag(a) != tag@ by {
                    match a {
                        PqAlg::MlDsa44 => {},
                        PqAlg::MlDsa65 => {},
                        PqAlg::MlDsa87 => {},
                    }
                }
            }
            Err(AuthError::UnknownAlg(tag.to_owned()))
        }
    }
}

/// Parsing a tag gives back the algorithm it names.
pub proof fn law_tag_roundtrip(a: ClassicalAlg, b: PqAlg)
    ensures
        forall|x: ClassicalAlg| classical_tag(x) == classical_tag(a) ==> x == a,
        forall|y: PqAlg| pq_tag(y) == pq_tag(b) ==> y == b,
{
    lemma_tags_distinct();
}

} // verus!
