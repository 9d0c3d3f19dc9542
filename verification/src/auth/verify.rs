//! End-to-end verification of a response.

use vstd::prelude::*;

use crate::auth::algorithm::PqAlg;
use crate::auth::cbor::{enc, str_equal};
use crate::auth::challenge::{
    challenge_decode_fault, challenge_decoded, ChallengeView, Response, SignedView, Challenge,
    MIN_NONCE_LEN, VERSION,
};
use crate::auth::error::{AuthError, Fault};
use crate::auth::key::{classical_key_value, ClassicalPublicKey, Fingerprint, PqPublicKey};
use crate::auth::nonce::{after_consume, consume_fault, NonceStore, NonceTable};
use crate::auth::signer::{challenge_payload, classical_fault, pq_fault, verify_classical, verify_pq};
use crate::foreign::hash::blake3_digest;

verus! {

/// How much post-quantum assurance the verifier demands.
#[derive(Clone, Copy, Debug, PartialEq, Eq, Structural)]
pub enum VerifyPolicy {
    /// Accept classical-only. A post-quantum signature that is present must
    /// still verify.
    PqOptional,
    /// Require a verifiable post-quantum signature as well as the classical
    /// one.
    PqRequired,
}

/// The authenticated identity produced by a successful verification.
#[derive(Clone, Debug)]
pub struct Verified {
    pub fingerprint: Fingerprint,
    pub public_key: ClassicalPublicKey,
    pub pq_public_key: Option<PqPublicKey>,
}

/// The challenge lies in its validity window at `now`, with `skew` seconds
/// of tolerance on both sides.
pub open spec fn in_window(c: ChallengeView, now: u64, skew: u64) -> bool {
    c.issued_at <= now + skew && now <= c.expires_at + skew
}

/// Why a response is rejected before its nonce is looked at, or `None` when
/// every check passes: the embedded challenge must decode, carry the current
/// version and the expected audience, have a long enough nonce and be in its
/// window; the classical signature must verify; a present post-quantum
/// signature must verify, and one must be present under `PqRequired`.
pub open spec fn check_fault(
    resp: SignedView,
    audience: Seq<char>,
    now: u64,
    skew: u64,
    policy: VerifyPolicy,
) -> Option<Fault> {
    match challenge_decoded(resp.subject) {
        None => Some(challenge_decode_fault(resp.subject)),
        Some(c) => if c.version != VERSION {
            Some(Fault::Version(c.version))
        } else if c.audience != audience {
            Some(Fault::Audience)
        } else if c.nonce.len() < MIN_NONCE_LEN {
            Some(Fault::NonceTooShort)
        } else if !in_window(c, now, skew) {
            Some(Fault::TimeWindow)
        } else if classical_fault(
            resp.public_key,
            challenge_payload(resp.subject),
            resp.signature,
        ) is Some {
            classical_fault(resp.public_key, challenge_payload(resp.subject), resp.signature)
        } else {
            match resp.pq {
                Some((k, g)) => pq_fault(k, challenge_payload(resp.subject), g),
                None => if policy == VerifyPolicy::PqRequired {
                    Some(Fault::PqRequired)
                } else {
                    None
                },
            }
        },
    }
}

/// The nonce of the challenge a response answers.
pub open spec fn response_nonce(resp: SignedView) -> Seq<u8> {
    challenge_decoded(resp.subject)->0.nonce
}

/// Why a response is rejected, or `None` when it is accepted: the checks,
/// then the consumption of its nonce.
pub open spec fn verify_fault(
    resp: SignedView,
    audience: Seq<char>,
    now: u64,
    skew: u64,
    policy: VerifyPolicy,
    issued: NonceTable,
) -> Option<Fault> {
    match check_fault(resp, audience, now, skew, policy) {
        Some(f) => Some(f),
        None => consume_fault(issued, response_nonce(resp), now),
    }
}

/// The nonce table after a verification: the nonce is consumed when every
/// check passes, and nothing changes otherwise.
pub open spec fn verify_table(
    resp: SignedView,
    audience: Seq<char>,
    now: u64,
    skew: u64,
    policy: VerifyPolicy,
    issued: NonceTable,
) -> NonceTable {
    if check_fault(resp, audience, now, skew, policy) is None {
        after_consume(issued, response_nonce(resp), now)
    } else {
        issued
    }
}

/// The challenge's checks other than the signatures.
fn check_challenge(c: &Challenge, expected_audience: &str, now: u64, skew_secs: u64) -> (r: Result<
    (),
    AuthError,
>)
    ensures
        match r {
            Ok(()) => c@.version == VERSION && c@.audience == expected_audience@ && c@.nonce.len()
                >= MIN_NONCE_LEN && in_window(c@, now, skew_secs),
            Err(e) => !(c@.version == VERSION && c@.audience == expected_audience@ && c@.nonce.len()
                >= MIN_NONCE_LEN && in_window(c@, now, skew_secs)) && e@ == (if c@.version != VERSION {
                Fault::Version(c@.version)
            } else if c@.audience != expected_audience@ {
                Fault::Audience
            } else if c@.nonce.len() < MIN_NONCE_LEN {
                Fault::NonceTooShort
            } else {
                Fault::TimeWindow
            }),
        },
{
    if c.version != VERSION {
        return Err(AuthError::Version(c.version));
    }
    if !str_equal(c.audience.as_str(), expected_audience) {
        return Err(AuthError::Audience);
    }
    if c.nonce.len() < MIN_NONCE_LEN {
        return Err(AuthError::NonceTooShort);
    }
    // The window is compared without overflow.
    let now_w = now as u128;
    let skew_w = skew_secs as u128;
    if now_w + skew_w < c.issued_at as u128 || now_w > c.expires_at as u128 + skew_w {
        return Err(AuthError::TimeWindow);
    }
    Ok(())
}

/// Verify a [`Response`] end to end. On success the nonce is consumed (so a
/// response is accepted at most once) and the authenticated identity is
/// returned.
///
/// - `expected_audience`: the audience this verifier accepts.
/// - `now`: current Unix seconds.
/// - `skew_secs`: tolerated clock skew on the validity window.
pub fn verify_response<N: NonceStore>(
    resp: &Response,
    expected_audience: &str,
    now: u64,
    skew_secs: u64,
    policy: VerifyPolicy,
    nonces: &mut N,
) -> (r: Result<Verified, AuthError>)
    ensures
        match r {
            Ok(v) => {
                &&& verify_fault(
                    resp@,
                    expected_audience@,
                    now,
                    skew_secs,
                    policy,
                    old(nonces).issued(),
                ) is None
                &&& v.public_key@ == resp.public_key@
                &&& v.fingerprint@ == blake3_digest(enc(classical_key_value(resp.public_key@)))
                &&& v.pq_public_key matches Some(k) ==> resp@.pq matches Some((pk, _)) && k@ == pk
                &&& v.pq_public_key is None ==> resp@.pq is None
            },
            Err(e) => verify_fault(
                resp@,
                expected_audience@,
                now,
                skew_secs,
                policy,
                old(nonces).issued(),
            ) == Some(e@),
        },
        final(nonces).issued() == verify_table(
            resp@,
            expected_audience@,
            now,
            skew_secs,
            policy,
            old(nonces).issued(),
        ),
{
    let challenge = Challenge::from_bytes(&resp.challenge_bytes)?;
    check_challenge(&challenge, expected_audience, now, skew_secs)?;

    // Classical signature over the domain-separated payload.
    let payload = resp.signing_payload();
    verify_classical(&resp.public_key, &payload, &resp.signature)?;

    // A present post-quantum signature must verify (downgrade-proof);
    // PqRequired also rejects classical-only responses.
    let pq_public_key = match &resp.pq {
        Some((pqpub, pqsig)) => {
            verify_pq(pqpub, &payload, pqsig)?;
            Some(pqpub.duplicate())
        },
        None => {
            if policy == VerifyPolicy::PqRequired {
                return Err(AuthError::PqRequired);
            }
            None
        },
    };

    // Every check passed: now burn the nonce, so a valid proof cannot be
    // replayed.
    nonces.consume(challenge.nonce.as_slice(), now)?;

    Ok(
        Verified {
            fingerprint: resp.public_key.fingerprint(),
            public_key: resp.public_key.duplicate(),
            pq_public_key,
        },
    )
}

/// A response is accepted at most once: once a verification has accepted
/// it, verifying it again against the resulting nonce table fails, whatever
/// the time, skew and policy; at the same time, skew and policy it fails as
/// a replay.
pub proof fn law_accepted_at_most_once(
    resp: SignedView,
    audience: Seq<char>,
    now: u64,
    skew: u64,
    policy: VerifyPolicy,
    issued: NonceTable,
    now2: u64,
    skew2: u64,
    policy2: VerifyPolicy,
)
    requires
        verify_fault(resp, audience, now, skew, policy, issued) is None,
    ensures
        verify_fault(
            resp,
            audience,
            now2,
            skew2,
            policy2,
            verify_table(resp, audience, now, skew, policy, issued),
        ) is Some,
        verify_fault(
            resp,
            audience,
            now,
            skew,
            policy,
            verify_table(resp, audience, now, skew, policy, issued),
        ) == Some(Fault::NonceReplay),
{
}

/// An accepted response carries a valid classical signature over the
/// domain-separated payload of its challenge, and its challenge is current,
/// for the verifier's audience and in its window.
pub proof fn law_accepted_is_authentic(
    resp: SignedView,
    audience: Seq<char>,
    now: u64,
    skew: u64,
    policy: VerifyPolicy,
    issued: NonceTable,
)
    requires
        verify_fault(resp, audience, now, skew, policy, issued) is None,
    ensures
        challenge_decoded(resp.subject) matches Some(c) && c.version == VERSION && c.audience
            == audience && c.nonce.len() >= MIN_NONCE_LEN && in_window(c, now, skew),
        classical_fault(resp.public_key, challenge_payload(resp.subject), resp.signature) is None,
        issued.dom().contains(response_nonce(resp)) && !issued[response_nonce(resp)].1,
{
}

/// A response that passes every check is accepted when its challenge's nonce
/// was issued here, is unused and has not expired.
pub proof fn law_issued_unused_nonce_accepted(
    resp: SignedView,
    audience: Seq<char>,
    now: u64,
    skew: u64,
    policy: VerifyPolicy,
    issued: NonceTable,
)
    requires
        check_fault(resp, audience, now, skew, policy) is None,
        issued.dom().contains(response_nonce(resp)),
        !issued[response_nonce(resp)].1,
        now <= issued[response_nonce(resp)].0,
    ensures
        verify_fault(resp, audience, now, skew, policy, issued) is None,
{
}

/// Verification is downgrade-proof: a present post-quantum signature must
/// verify under either policy, and `PqRequired` accepts only responses that
/// carry one.
pub proof fn law_downgrade_proof(
    resp: SignedView,
    audience: Seq<char>,
    now: u64,
    skew: u64,
    policy: VerifyPolicy,
    issued: NonceTable,
)
    requires
        verify_fault(resp, audience, now, skew, policy, issued) is None,
    ensures
        resp.pq matches Some((k, g)) ==> pq_fault(k, challenge_payload(resp.subject), g) is None,
        policy == VerifyPolicy::PqRequired ==> resp.pq is Some,
{
}

} // verus!
