//! Signing and verification.
//!
//! [`Signer`] is what a signing backend (a software key, a platform enclave)
//! implements; [`Signer::respond`] assembles a [`Response`] with the right
//! domain separation so that backends never touch the wire format.
//! [`verify_classical`] and [`verify_pq`] check one signature over a payload.

use vstd::prelude::*;

use crate::auth::algorithm::{ClassicalAlg, PqAlg};
use crate::auth::cbor::enc;
use crate::auth::challenge::{
    challenge_value, payload_value, signing_payload, Challenge, Response, PURPOSE_CHALLENGE,
};
use crate::auth::error::{AuthError, Fault};
use crate::auth::key::{ClassicalPublicKey, ClassicalSignature, PqPublicKey, PqSignature};
use crate::foreign::ecdsa_p256::{
    p256_generate, p256_key_ok, p256_key_valid, p256_public, p256_public_of, p256_secret_ok,
    p256_sig_ok, p256_sig_valid, p256_sign, p256_signature_of, p256_verifies, p256_verify,
};
use crate::foreign::ed25519::{
    ed25519_generate, ed25519_key_ok, ed25519_key_valid, ed25519_public, ed25519_public_of,
    ed25519_sign, ed25519_signature_of, ed25519_verifies, ed25519_verify,
};
use crate::foreign::ml_dsa::{
    ml_dsa_44_key_ok, ml_dsa_44_key_valid, ml_dsa_44_verifies, ml_dsa_44_verify, ml_dsa_65_generate,
    ml_dsa_65_key_ok, ml_dsa_65_key_valid, ml_dsa_65_sign, ml_dsa_65_verifies, ml_dsa_65_verify,
    ml_dsa_87_key_ok, ml_dsa_87_key_valid, ml_dsa_87_verifies, ml_dsa_87_verify,
};
use crate::seqs::to_vec;

verus! {

broadcast use vstd::std_specs::vec::group_vec_axioms;

/// The payload signed to answer a challenge whose canonical bytes are
/// `chal`.
pub open spec fn challenge_payload(chal: Seq<u8>) -> Seq<u8> {
    enc(payload_value(PURPOSE_CHALLENGE@, chal))
}

/// Something that can answer an authentication challenge by signing.
///
/// An implementation states, through the spec functions, which identity it
/// holds and which signatures it produces.
pub trait Signer {
    /// The classical public key of this identity.
    spec fn identity(&self) -> (ClassicalAlg, Seq<u8>);

    /// `sig` is a classical signature this identity produces over `payload`.
    spec fn signs(&self, payload: Seq<u8>, sig: (ClassicalAlg, Seq<u8>)) -> bool;

    /// The post-quantum public key of this identity, if it has one.
    spec fn pq_identity(&self) -> Option<(PqAlg, Seq<u8>)>;

    /// `sig` is a post-quantum signature this identity produces over
    /// `payload`.
    spec fn pq_signs(&self, payload: Seq<u8>, sig: (PqAlg, Seq<u8>)) -> bool;

    fn classical_public_key(&self) -> (r: ClassicalPublicKey)
        ensures
            r@ == self.identity(),
    ;

    fn sign_classical(&self, payload: &[u8]) -> (r: Result<ClassicalSignature, AuthError>)
        ensures
            r matches Ok(s) ==> self.signs(payload@, s@),
    ;

    /// The post-quantum public key, exactly when the identity has one.
    fn pq_public_key(&self) -> (r: Option<PqPublicKey>)
        ensures
            r is Some <==> self.pq_identity() is Some,
            r matches Some(k) ==> self.pq_identity() == Some(k@),
    ;

    /// A post-quantum signature of `payload`: none for an identity without a
    /// post-quantum key; for one with a key, a signature, or the backend's
    /// error.
    fn sign_pq(&self, payload: &[u8]) -> (r: Result<Option<PqSignature>, AuthError>)
        ensures
            r matches Ok(Some(s)) ==> self.pq_signs(payload@, s@),
            self.pq_identity() is None ==> r matches Ok(None),
            self.pq_identity() is Some ==> (r matches Ok(Some(_)) || r is Err),
    ;

    /// Produce a [`Response`] to `challenge`: its canonical bytes, this
    /// identity's key, and signatures over the domain-separated payload.
    /// Fails when a signing operation fails.
    fn respond(&self, challenge: &Challenge) -> (r: Result<Response, AuthError>)
        ensures
            r matches Ok(resp) ==> {
                &&& resp.challenge_bytes@ == enc(challenge_value(challenge@))
                &&& resp.public_key@ == self.identity()
                &&& self.signs(challenge_payload(resp.challenge_bytes@), resp.signature@)
                &&& resp.pq matches Some((k, s)) ==> self.pq_identity() == Some(k@)
                    && self.pq_signs(challenge_payload(resp.challenge_bytes@), s@)
                &&& resp.pq is Some <==> self.pq_identity() is Some
            },
    {
        let chal = challenge.to_bytes();
        let payload = signing_payload(&chal);
        let signature = self.sign_classical(&payload)?;
        let pq = match (self.pq_public_key(), self.sign_pq(&payload)?) {
            (Some(pk), Some(sig)) => Some((pk, sig)),
            _ => None,
        };
        Ok(Response { challenge_bytes: chal, public_key: self.classical_public_key(), signature, pq })
    }
}

// ---------------------------------------------------------------------------
// Software reference signer
// ---------------------------------------------------------------------------

/// The secret of a classical software identity: an Ed25519 seed or a P-256
/// secret scalar.
enum ClassicalSecret {
    Ed25519([u8; 32]),
    P256(Vec<u8>),
}

/// In-process software signer. It is not hardware-backed and performs no
/// user-presence check.
pub struct SoftwareSigner {
    classical: ClassicalSecret,
    /// Optional ML-DSA-65 key: (encoded private key, encoded public key).
    pq: Option<(Vec<u8>, Vec<u8>)>,
}

impl SoftwareSigner {
    #[verifier::type_invariant]
    spec fn well_formed(self) -> bool {
        &&& self.classical matches ClassicalSecret::P256(s) ==> p256_secret_ok(s@)
        &&& self.pq matches Some((sk, pk)) ==> sk@.len() == 4032 && pk@.len() == 1952
    }

    /// Generate a fresh Ed25519 software identity.
    pub fn generate_ed25519() -> (r: Self)
        ensures
            r.identity().0 == ClassicalAlg::Ed25519,
            r.pq_identity() is None,
            exists|seed: Seq<u8>|
                r.identity() == (ClassicalAlg::Ed25519, ed25519_public_of(seed)) && forall|
                    p: Seq<u8>,
                    s: (ClassicalAlg, Seq<u8>),
                | #[trigger] r.signs(p, s) <==> s == (ClassicalAlg::Ed25519, ed25519_signature_of(
                    seed,
                    p,
                )),
    {
        Self { classical: ClassicalSecret::Ed25519(ed25519_generate()), pq: None }
    }

    /// Generate a fresh P-256 software identity.
    pub fn generate_p256() -> (r: Self)
        ensures
            r.identity().0 == ClassicalAlg::P256,
            r.pq_identity() is None,
    {
        Self { classical: ClassicalSecret::P256(p256_generate()), pq: None }
    }

    /// Rebuild an Ed25519 signer from a 32-byte seed.
    pub fn from_ed25519_seed(seed: [u8; 32]) -> (r: Self)
        ensures
            r.identity() == (ClassicalAlg::Ed25519, ed25519_public_of(seed@)),
            forall|p: Seq<u8>, s: (ClassicalAlg, Seq<u8>)|
                r.signs(p, s) <==> s == (ClassicalAlg::Ed25519, ed25519_signature_of(seed@, p)),
            r.pq_identity() is None,
    {
        Self { classical: ClassicalSecret::Ed25519(seed), pq: None }
    }

    /// Attach a freshly generated ML-DSA-65 key to this identity. Fails when
    /// key generation fails.
    pub fn with_ml_dsa_65(self) -> (r: Result<Self, AuthError>)
        ensures
            r matches Ok(s) ==> s.identity() == self.identity() && (forall|
                p: Seq<u8>,
                g: (ClassicalAlg, Seq<u8>),
            | s.signs(p, g) == self.signs(p, g)) && (s.pq_identity() matches Some(k) && k.0
                == PqAlg::MlDsa65 && k.1.len() == 1952),
            r matches Err(e) ==> e is Backend,
    {
        proof {
            use_type_invariant(&self);
        }
        match ml_dsa_65_generate() {
            Ok((pk, sk)) => {
                let SoftwareSigner { classical, pq: _ } = self;
                Ok(SoftwareSigner { classical, pq: Some((sk, pk)) })
            },
            Err(msg) => Err(AuthError::Backend(msg)),
        }
    }
}

impl Signer for SoftwareSigner {
    closed spec fn identity(&self) -> (ClassicalAlg, Seq<u8>) {
        match self.classical {
            ClassicalSecret::Ed25519(seed) => (ClassicalAlg::Ed25519, ed25519_public_of(seed@)),
            ClassicalSecret::P256(s) => (ClassicalAlg::P256, p256_public_of(s@)),
        }
    }

    closed spec fn signs(&self, payload: Seq<u8>, sig: (ClassicalAlg, Seq<u8>)) -> bool {
        match self.classical {
            ClassicalSecret::Ed25519(seed) => sig == (
                ClassicalAlg::Ed25519,
                ed25519_signature_of(seed@, payload),
            ),
            ClassicalSecret::P256(s) => sig == (ClassicalAlg::P256, p256_signature_of(s@, payload)),
        }
    }

    closed spec fn pq_identity(&self) -> Option<(PqAlg, Seq<u8>)> {
        match self.pq {
            Some((_, pk)) => Some((PqAlg::MlDsa65, pk@)),
            None => None,
        }
    }

    /// A hedged ML-DSA-65 signature has the parameter set's length; its
    /// bytes depend on fresh randomness.
    closed spec fn pq_signs(&self, payload: Seq<u8>, sig: (PqAlg, Seq<u8>)) -> bool {
        self.pq is Some && sig.0 == PqAlg::MlDsa65 && sig.1.len() == 3309
    }

    fn classical_public_key(&self) -> (r: ClassicalPublicKey) {
        proof {
            use_type_invariant(self);
        }
        match &self.classical {
            ClassicalSecret::Ed25519(seed) => {
                let pk = ed25519_public(seed);
                ClassicalPublicKey { alg: ClassicalAlg::Ed25519, bytes: to_vec(pk.as_slice()) }
            },
            ClassicalSecret::P256(s) => ClassicalPublicKey {
                alg: ClassicalAlg::P256,
                bytes: p256_public(s.as_slice()),
            },
        }
    }

    fn sign_classical(&self, payload: &[u8]) -> (r: Result<ClassicalSignature, AuthError>)
        ensures
            r is Ok,
    {
        proof {
            use_type_invariant(self);
        }
        match &self.classical {
            ClassicalSecret::Ed25519(seed) => {
                let sig = ed25519_sign(seed, payload);
                Ok(ClassicalSignature { alg: ClassicalAlg::Ed25519, bytes: to_vec(sig.as_slice()) })
            },
            ClassicalSecret::P256(s) => Ok(
                ClassicalSignature { alg: ClassicalAlg::P256, bytes: p256_sign(s.as_slice(), payload) },
            ),
        }
    }

    fn pq_public_key(&self) -> (r: Option<PqPublicKey>)
        ensures
            r is Some <==> self.pq_identity() is Some,
    {
        match &self.pq {
            Some((_, pk)) => Some(PqPublicKey { alg: PqAlg::MlDsa65, bytes: to_vec(pk.as_slice()) }),
            None => None,
        }
    }

    fn sign_pq(&self, payload: &[u8]) -> (r: Result<Option<PqSignature>, AuthError>)
        ensures
            self.pq_identity() is None ==> r matches Ok(None),
            self.pq_identity() is Some ==> (r matches Ok(Some(_)) || r matches Err(
                AuthError::Backend(_),
            )),
    {
        proof {
            use_type_invariant(self);
        }
        match &self.pq {
            None => Ok(None),
            Some((sk, _)) => match ml_dsa_65_sign(sk.as_slice(), payload) {
                Ok(sig) => Ok(Some(PqSignature { alg: PqAlg::MlDsa65, bytes: sig })),
                Err(msg) => Err(AuthError::Backend(msg)),
            },
        }
    }
}

// ---------------------------------------------------------------------------
// Verification of one signature
// ---------------------------------------------------------------------------

/// Why a classical signature over `payload` is rejected, or `None` when it
/// verifies. The checks run in this order: matching algorithms, key
/// encoding, signature encoding, the signature itself.
pub open spec fn classical_fault(
    pk: (ClassicalAlg, Seq<u8>),
    payload: Seq<u8>,
    sig: (ClassicalAlg, Seq<u8>),
) -> Option<Fault> {
    if pk.0 != sig.0 {
        Some(Fault::BadSignature)
    } else {
        match pk.0 {
            ClassicalAlg::Ed25519 => if pk.1.len() != 32 || !ed25519_key_ok(pk.1) {
                Some(Fault::InvalidKey("ed25519"@))
            } else if sig.1.len() != 64 {
                Some(Fault::InvalidSig("ed25519"@))
            } else if !ed25519_verifies(pk.1, payload, sig.1) {
                Some(Fault::BadSignature)
            } else {
                None
            },
            ClassicalAlg::P256 => if !p256_key_ok(pk.1) {
                Some(Fault::InvalidKey("p256"@))
            } else if !p256_sig_ok(sig.1) {
                Some(Fault::InvalidSig("p256"@))
            } else if !p256_verifies(pk.1, payload, sig.1) {
                Some(Fault::BadSignature)
            } else {
                None
            },
        }
    }
}

/// Verify a classical signature over `payload`.
pub fn verify_classical(pk: &ClassicalPublicKey, payload: &[u8], sig: &ClassicalSignature) -> (r:
    Result<(), AuthError>)
    ensures
        match r {
            Ok(()) => classical_fault(pk@, payload@, sig@) is None,
            Err(e) => classical_fault(pk@, payload@, sig@) == Some(e@),
        },
{
    if pk.alg != sig.alg {
        return Err(AuthError::BadSignature);
    }
    match pk.alg {
        ClassicalAlg::Ed25519 => {
            if pk.bytes.len() != 32 || !ed25519_key_valid(pk.bytes.as_slice()) {
                return Err(AuthError::InvalidKey("ed25519"));
            }
            if sig.bytes.len() != 64 {
                return Err(AuthError::InvalidSig("ed25519"));
            }
            if ed25519_verify(pk.bytes.as_slice(), payload, sig.bytes.as_slice()) {
                Ok(())
            } else {
                Err(AuthError::BadSignature)
            }
        },
        ClassicalAlg::P256 => {
            if !p256_key_valid(pk.bytes.as_slice()) {
                return Err(AuthError::InvalidKey("p256"));
            }
            if !p256_sig_valid(sig.bytes.as_slice()) {
                return Err(AuthError::InvalidSig("p256"));
            }
            if p256_verify(pk.bytes.as_slice(), payload, sig.bytes.as_slice()) {
                Ok(())
            } else {
                Err(AuthError::BadSignature)
            }
        },
    }
}

/// The encoded key and signature lengths of an ML-DSA parameter set
/// (FIPS 204).
pub open spec fn ml_dsa_lengths(a: PqAlg) -> (nat, nat) {
    match a {
        PqAlg::MlDsa44 => (1312, 2420),
        PqAlg::MlDsa65 => (1952, 3309),
        PqAlg::MlDsa87 => (2592, 4627),
    }
}

/// The key is accepted by the parameter set's `try_from_bytes`.
pub open spec fn ml_dsa_key_ok(a: PqAlg, pk: Seq<u8>) -> bool {
    match a {
        PqAlg::MlDsa44 => ml_dsa_44_key_ok(pk),
        PqAlg::MlDsa65 => ml_dsa_65_key_ok(pk),
        PqAlg::MlDsa87 => ml_dsa_87_key_ok(pk),
    }
}

/// The signature of `payload` verifies under the key.
pub open spec fn ml_dsa_verifies(a: PqAlg, pk: Seq<u8>, payload: Seq<u8>, sig: Seq<u8>) -> bool {
    match a {
        PqAlg::MlDsa44 => ml_dsa_44_verifies(pk, payload, sig),
        PqAlg::MlDsa65 => ml_dsa_65_verifies(pk, payload, sig),
        PqAlg::MlDsa87 => ml_dsa_87_verifies(pk, payload, sig),
    }
}

/// The name the errors of a parameter set carry.
pub open spec fn ml_dsa_name(a: PqAlg) -> Seq<char> {
    match a {
        PqAlg::MlDsa44 => "ml-dsa-44"@,
        PqAlg::MlDsa65 => "ml-dsa-65"@,
        PqAlg::MlDsa87 => "ml-dsa-87"@,
    }
}

/// Why a post-quantum signature over `payload` is rejected, or `None` when
/// it verifies. The checks run in this order: matching algorithms, key
/// length, key encoding (a backend error), signature length, the signature
/// itself.
pub open spec fn pq_fault(pk: (PqAlg, Seq<u8>), payload: Seq<u8>, sig: (PqAlg, Seq<u8>)) -> Option<
    Fault,
> {
    if pk.0 != sig.0 {
        Some(Fault::BadSignature)
    } else if pk.1.len() != ml_dsa_lengths(pk.0).0 {
        Some(Fault::InvalidKey(ml_dsa_name(pk.0)))
    } else if !ml_dsa_key_ok(pk.0, pk.1) {
        Some(Fault::Backend)
    } else if sig.1.len() != ml_dsa_lengths(pk.0).1 {
        Some(Fault::InvalidSig(ml_dsa_name(pk.0)))
    } else if !ml_dsa_verifies(pk.0, pk.1, payload, sig.1) {
        Some(Fault::BadSignature)
    } else {
        None
    }
}

/// Check a post-quantum signature with one parameter set's wrappers.
fn verify_ml_dsa(pk: &PqPublicKey, payload: &[u8], sig: &PqSignature) -> (r: Result<(), AuthError>)
    requires
        pk.alg == sig.alg,
    ensures
        match r {
            Ok(()) => pq_fault(pk@, payload@, sig@) is None,
            Err(e) => pq_fault(pk@, payload@, sig@) == Some(e@),
        },
{
    let k = pk.bytes.as_slice();
    let s = sig.bytes.as_slice();
    match pk.alg {
        PqAlg::MlDsa44 => {
            if k.len() != 1312 {
                return Err(AuthError::InvalidKey("ml-dsa-44"));
            }
            if let Err(msg) = ml_dsa_44_key_valid(k) {
                return Err(AuthError::Backend(msg));
            }
            if s.len() != 2420 {
                return Err(AuthError::InvalidSig("ml-dsa-44"));
            }
            if ml_dsa_44_verify(k, payload, s) {
                Ok(())
            } else {
                Err(AuthError::BadSignature)
            }
        },
        PqAlg::MlDsa65 => {
            if k.len() != 1952 {
                return Err(AuthError::InvalidKey("ml-dsa-65"));
            }
            if let Err(msg) = ml_dsa_65_key_valid(k) {
                return Err(AuthError::Backend(msg));
            }
            if s.len() != 3309 {
                return Err(AuthError::InvalidSig("ml-dsa-65"));
            }
            if ml_dsa_65_verify(k, payload, s) {
                Ok(())
            } else {
                Err(AuthError::BadSignature)
            }
        },
        PqAlg::MlDsa87 => {
            if k.len() != 2592 {
                return Err(AuthError::InvalidKey("ml-dsa-87"));
            }
            if let Err(msg) = ml_dsa_87_key_valid(k) {
                return Err(AuthError::Backend(msg));
            }
            if s.len() != 4627 {
                return Err(AuthError::InvalidSig("ml-dsa-87"));
            }
            if ml_dsa_87_verify(k, payload, s) {
                Ok(())
            } else {
                Err(AuthError::BadSignature)
            }
        },
    }
}

/// Verify a post-quantum signature over `payload`.
pub fn verify_pq(pk: &PqPublicKey, payload: &[u8], sig: &PqSignature) -> (r: Result<(), AuthError>)
    ensures
        match r {
            Ok(()) => pq_fault(pk@, payload@, sig@) is None,
            Err(e) => pq_fault(pk@, payload@, sig@) == Some(e@),
        },
{
    if pk.alg != sig.alg {
        return Err(AuthError::BadSignature);
    }
    verify_ml_dsa(pk, payload, sig)
}

} // verus!
