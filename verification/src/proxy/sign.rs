//! Multi-signatures: Ed25519 always, ML-DSA-87 optionally.
//!
//! A signature is Ed25519-only or hybrid (Ed25519 and ML-DSA-87), never
//! ML-DSA-only. Verifiers choose the assurance they demand with
//! [`VerifyPolicy`].

use vstd::prelude::*;

use crate::foreign::ed25519::{
    ed25519_key_ok, ed25519_key_valid, ed25519_public_of, ed25519_sign, ed25519_signature_of,
    ed25519_verifies, ed25519_verify,
};
use crate::foreign::ml_dsa::{ml_dsa_87_key_ok, ml_dsa_87_key_valid, ml_dsa_87_sign, ml_dsa_87_verifies, ml_dsa_87_verify};
use crate::proxy::error::{CoreError, CoreResult};
use crate::seqs::to_vec;

verus! {

broadcast use vstd::std_specs::vec::group_vec_axioms;

/// A signature: Ed25519 (64 bytes), and optionally ML-DSA-87.
#[derive(Clone, Debug)]
pub struct MultiSig {
    pub ed25519_sig: [u8; 64],
    pub ml_dsa_sig: Option<Vec<u8>>,
}

/// Signing keys: an Ed25519 seed, and optionally an ML-DSA-87 private key.
pub struct SigningKeys {
    pub ed25519: [u8; 32],
    pub ml_dsa: Option<Vec<u8>>,
}

/// Verifying keys: an Ed25519 public key, and optionally an ML-DSA-87 public
/// key.
pub struct VerifyingKeys {
    pub ed25519: [u8; 32],
    pub ml_dsa: Option<Vec<u8>>,
}

/// How much post-quantum assurance the verifier demands.
#[derive(Clone, Copy, Debug, PartialEq, Eq, Structural)]
pub enum VerifyPolicy {
    /// Accept Ed25519-only signatures; an ML-DSA-87 part that is present must
    /// still verify.
    PqOptional,
    /// Require a valid ML-DSA-87 part.
    PqRequired,
}

/// Sign a message: Ed25519 always, ML-DSA-87 when a post-quantum key is
/// given. Fails when the post-quantum signing fails.
pub fn sign_message(msg: &[u8], keys: &SigningKeys) -> (r: CoreResult<MultiSig>)
    ensures
        match r {
            Ok(s) => s.ed25519_sig@ == ed25519_signature_of(keys.ed25519@, msg@) && ed25519_verifies(
                ed25519_public_of(keys.ed25519@),
                msg@,
                s.ed25519_sig@,
            ) && (
            s.ml_dsa_sig is Some <==> keys.ml_dsa is Some) && (s.ml_dsa_sig matches Some(p)
                ==> p@.len() == 4627),
            Err(e) => keys.ml_dsa is Some && e is Signature,
        },
{
    let ed25519_sig = ed25519_sign(&keys.ed25519, msg);
    let ml_dsa_sig = match &keys.ml_dsa {
        Some(sk) => {
            if sk.len() != 4896 {
                return Err(CoreError::Signature("ML-DSA signing failed: invalid key".to_owned()));
            }
            match ml_dsa_87_sign(sk.as_slice(), msg) {
                Ok(s) => Some(s),
                Err(msg) => {
                    return Err(CoreError::Signature(msg));
                },
            }
        },
        None => None,
    };
    Ok(MultiSig { ed25519_sig, ml_dsa_sig })
}

/// The ML-DSA-87 part verifies under the key.
pub open spec fn ml_dsa_part_ok(pk: Seq<u8>, msg: Seq<u8>, sig: Seq<u8>) -> bool {
    pk.len() == 2592 && ml_dsa_87_key_ok(pk) && sig.len() == 4627 && ml_dsa_87_verifies(
        pk,
        msg,
        sig,
    )
}

/// When a signature is accepted: the Ed25519 part verifies; an ML-DSA-87
/// part, when present, needs a post-quantum key and must verify; under
/// `PqRequired` the part must be present.
pub open spec fn signature_accepted(
    msg: Seq<u8>,
    sig: MultiSig,
    pks: VerifyingKeys,
    policy: VerifyPolicy,
) -> bool {
    &&& ed25519_key_ok(pks.ed25519@)
    &&& ed25519_verifies(pks.ed25519@, msg, sig.ed25519_sig@)
    &&& match sig.ml_dsa_sig {
        None => policy == VerifyPolicy::PqOptional,
        Some(p) => pks.ml_dsa matches Some(pk) && ml_dsa_part_ok(pk@, msg, p@),
    }
}

/// Verify a signature under `policy`. Returns `Ok(true)` when accepted; every
/// rejection is a signature error.
pub fn verify_message(msg: &[u8], sig: &MultiSig, pks: &VerifyingKeys, policy: VerifyPolicy) -> (r:
    CoreResult<bool>)
    ensures
        match r {
            Ok(b) => b && signature_accepted(msg@, *sig, *pks, policy),
            Err(e) => !signature_accepted(msg@, *sig, *pks, policy) && e is Signature,
        },
{
    if !ed25519_key_valid(pks.ed25519.as_slice()) || !ed25519_verify(
        pks.ed25519.as_slice(),
        msg,
        sig.ed25519_sig.as_slice(),
    ) {
        return Err(CoreError::Signature("ED25519 verification failed".to_owned()));
    }
    let ml_dsa_bytes = match &sig.ml_dsa_sig {
        None => {
            return match policy {
                VerifyPolicy::PqRequired => Err(
                    CoreError::Signature("ML-DSA-87 signature required by policy but absent".to_owned()),
                ),
                VerifyPolicy::PqOptional => Ok(true),
            };
        },
        Some(b) => b,
    };
    let pq_pk = match &pks.ml_dsa {
        None => {
            return Err(
                CoreError::Signature("ML-DSA-87 signature present but no PQ verifying key".to_owned()),
            );
        },
        Some(pk) => pk,
    };
    if pq_pk.len() != 2592 || sig_len_bad(ml_dsa_bytes) {
        return Err(CoreError::Signature("ML-DSA verification failed".to_owned()));
    }
    if ml_dsa_87_key_valid(pq_pk.as_slice()).is_err() {
        return Err(CoreError::Signature("ML-DSA verification failed".to_owned()));
    }
    if !ml_dsa_87_verify(pq_pk.as_slice(), msg, ml_dsa_bytes.as_slice()) {
        return Err(CoreError::Signature("ML-DSA signature invalid".to_owned()));
    }
    Ok(true)
}

fn sig_len_bad(sig: &Vec<u8>) -> (r: bool)
    ensures
        r == (sig@.len() != 4627),
{
    sig.len() != 4627
}

/// Verification is downgrade-proof: an accepted signature under
/// `PqRequired` carries a verified ML-DSA-87 part, and a present ML-DSA-87
/// part is verified under either policy.
pub proof fn law_signature_downgrade_proof(
    msg: Seq<u8>,
    sig: MultiSig,
    pks: VerifyingKeys,
    policy: VerifyPolicy,
)
    requires
        signature_accepted(msg, sig, pks, policy),
    ensures
        policy == VerifyPolicy::PqRequired ==> sig.ml_dsa_sig is Some,
        sig.ml_dsa_sig matches Some(p) ==> (pks.ml_dsa matches Some(pk) && ml_dsa_part_ok(
            pk@,
            msg,
            p@,
        )),
{
}

} // verus!
