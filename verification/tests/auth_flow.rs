use recrypt::auth::algorithm::{ClassicalAlg, PqAlg};
use recrypt::auth::challenge::{Challenge, Response, VERSION};
use recrypt::auth::error::AuthError;
use recrypt::auth::key::{ClassicalPublicKey, Fingerprint};
use recrypt::auth::nonce::{ChallengeIssuer, InMemoryNonceStore, NonceStore};
use recrypt::auth::signer::{verify_classical, Signer, SoftwareSigner};
use recrypt::auth::verify::{verify_response, VerifyPolicy};

const AUD: &str = "papyrus";
const NOW: u64 = 1_000_000;

fn setup() -> (InMemoryNonceStore, Challenge) {
    let mut nonces = InMemoryNonceStore::new();
    let challenge = ChallengeIssuer::new(AUD, 120).issue(&mut nonces, NOW);
    (nonces, challenge)
}

#[test]
fn ed25519_happy_path() {
    let (mut nonces, challenge) = setup();
    let signer = SoftwareSigner::generate_ed25519();
    let resp = signer.respond(&challenge).unwrap();
    let v = verify_response(&resp, AUD, NOW, 30, VerifyPolicy::PqOptional, &mut nonces).unwrap();
    assert_eq!(v.public_key.alg, ClassicalAlg::Ed25519);
    assert_eq!(v.fingerprint, signer.classical_public_key().fingerprint());
    assert!(v.pq_public_key.is_none());
}

#[test]
fn p256_happy_path() {
    let (mut nonces, challenge) = setup();
    let signer = SoftwareSigner::generate_p256();
    let resp = signer.respond(&challenge).unwrap();
    let v = verify_response(&resp, AUD, NOW, 30, VerifyPolicy::PqOptional, &mut nonces).unwrap();
    assert_eq!(v.public_key.alg, ClassicalAlg::P256);
}

#[test]
fn hybrid_pq_happy_path_and_required_policy() {
    let (mut nonces, challenge) = setup();
    let signer = SoftwareSigner::generate_ed25519().with_ml_dsa_65().unwrap();
    let resp = signer.respond(&challenge).unwrap();
    assert!(resp.pq.is_some());
    let v = verify_response(&resp, AUD, NOW, 30, VerifyPolicy::PqRequired, &mut nonces).unwrap();
    assert_eq!(v.pq_public_key.as_ref().unwrap().alg, PqAlg::MlDsa65);
}

#[test]
fn lib_classical_only_rejected_when_pq_required() {
    let (mut nonces, challenge) = setup();
    let signer = SoftwareSigner::generate_p256();
    let resp = signer.respond(&challenge).unwrap();
    let err = verify_response(&resp, AUD, NOW, 30, VerifyPolicy::PqRequired, &mut nonces)
        .unwrap_err();
    assert!(matches!(err, AuthError::PqRequired));
}

#[test]
fn wire_roundtrip() {
    let (_n, challenge) = setup();
    let signer = SoftwareSigner::generate_ed25519().with_ml_dsa_65().unwrap();
    let resp = signer.respond(&challenge).unwrap();
    let bytes = resp.to_bytes();
    let decoded = Response::from_bytes(&bytes).unwrap();
    assert_eq!(decoded, resp);
    assert_eq!(decoded.to_bytes(), bytes);
}

#[test]
fn tampered_challenge_fails() {
    let (mut nonces, challenge) = setup();
    let signer = SoftwareSigner::generate_ed25519();
    let mut resp = signer.respond(&challenge).unwrap();
    let last = resp.challenge_bytes.len() - 1;
    resp.challenge_bytes[last] ^= 0xFF;
    assert!(verify_response(&resp, AUD, NOW, 30, VerifyPolicy::PqOptional, &mut nonces).is_err());
}

#[test]
fn tampered_pq_signature_fails() {
    let (mut nonces, challenge) = setup();
    let signer = SoftwareSigner::generate_ed25519().with_ml_dsa_65().unwrap();
    let mut resp = signer.respond(&challenge).unwrap();
    if let Some((_, pqsig)) = resp.pq.as_mut() {
        pqsig.bytes[0] ^= 0xFF;
    }
    let err = verify_response(&resp, AUD, NOW, 30, VerifyPolicy::PqOptional, &mut nonces)
        .unwrap_err();
    assert!(matches!(err, AuthError::BadSignature));
}

#[test]
fn wrong_audience_rejected() {
    let (mut nonces, challenge) = setup();
    let signer = SoftwareSigner::generate_ed25519();
    let resp = signer.respond(&challenge).unwrap();
    let err = verify_response(&resp, "not-papyrus", NOW, 30, VerifyPolicy::PqOptional, &mut nonces)
        .unwrap_err();
    assert!(matches!(err, AuthError::Audience));
}

#[test]
fn expired_challenge_rejected() {
    let (mut nonces, challenge) = setup();
    let signer = SoftwareSigner::generate_ed25519();
    let resp = signer.respond(&challenge).unwrap();
    let err = verify_response(&resp, AUD, NOW + 1000, 30, VerifyPolicy::PqOptional, &mut nonces)
        .unwrap_err();
    assert!(matches!(err, AuthError::TimeWindow));
}

#[test]
fn replay_rejected() {
    let (mut nonces, challenge) = setup();
    let signer = SoftwareSigner::generate_ed25519();
    let resp = signer.respond(&challenge).unwrap();
    verify_response(&resp, AUD, NOW, 30, VerifyPolicy::PqOptional, &mut nonces).unwrap();
    let err = verify_response(&resp, AUD, NOW, 30, VerifyPolicy::PqOptional, &mut nonces)
        .unwrap_err();
    assert!(matches!(err, AuthError::NonceReplay));
}

#[test]
fn unknown_nonce_rejected() {
    let mut nonces = InMemoryNonceStore::new();
    let foreign = Challenge {
        version: VERSION,
        audience: AUD.to_string(),
        nonce: vec![9u8; 16],
        issued_at: NOW,
        expires_at: NOW + 120,
    };
    let signer = SoftwareSigner::generate_ed25519();
    let resp = signer.respond(&foreign).unwrap();
    let err = verify_response(&resp, AUD, NOW, 30, VerifyPolicy::PqOptional, &mut nonces)
        .unwrap_err();
    assert!(matches!(err, AuthError::NonceReplay));
}

#[test]
fn fingerprint_commits_to_algorithm() {
    let ed = ClassicalPublicKey { alg: ClassicalAlg::Ed25519, bytes: vec![7u8; 32] };
    let p2 = ClassicalPublicKey { alg: ClassicalAlg::P256, bytes: vec![7u8; 32] };
    assert_ne!(ed.fingerprint(), p2.fingerprint());
}

#[test]
fn challenge_bytes_roundtrip_and_errors() {
    let c = Challenge {
        version: VERSION,
        audience: "svc".to_string(),
        nonce: vec![1u8; 16],
        issued_at: 5,
        expires_at: 9,
    };
    let bytes = c.to_bytes();
    assert_eq!(Challenge::from_bytes(&bytes).unwrap(), c);
    // a map without the "v" field
    let m = recrypt::auth::cbor::map(vec![("aud", recrypt::auth::cbor::Value::Uint(1))]);
    assert!(matches!(Challenge::from_bytes(&m.to_bytes()), Err(AuthError::MissingField("v"))));
    // "v" with the wrong type
    let m = recrypt::auth::cbor::map(vec![("v", recrypt::auth::cbor::Value::Text("1".into()))]);
    assert!(matches!(Challenge::from_bytes(&m.to_bytes()), Err(AuthError::Cbor(_))));
}

#[test]
fn dangling_pq_rejected() {
    let signer = SoftwareSigner::generate_ed25519();
    let pk = signer.classical_public_key();
    let sig = signer.sign_classical(b"x").unwrap();
    let pq = SoftwareSigner::generate_ed25519().with_ml_dsa_65().unwrap();
    let pqpk = pq.pq_public_key().unwrap();
    let m = recrypt::auth::cbor::map(vec![
        ("chal", recrypt::auth::cbor::Value::Bytes(vec![1])),
        ("pub", pk.to_value()),
        ("sig", sig.to_value()),
        ("pqpub", pqpk.to_value()),
    ]);
    assert!(matches!(Response::from_bytes(&m.to_bytes()), Err(AuthError::PqDangling)));
}

#[test]
fn version_and_nonce_checks() {
    let mut nonces = InMemoryNonceStore::new();
    let signer = SoftwareSigner::generate_ed25519();
    let bad_version = Challenge {
        version: 2,
        audience: AUD.to_string(),
        nonce: vec![1u8; 16],
        issued_at: NOW,
        expires_at: NOW + 10,
    };
    let resp = signer.respond(&bad_version).unwrap();
    let err = verify_response(&resp, AUD, NOW, 0, VerifyPolicy::PqOptional, &mut nonces).unwrap_err();
    assert!(matches!(err, AuthError::Version(2)));
    let short_nonce = Challenge {
        version: VERSION,
        audience: AUD.to_string(),
        nonce: vec![1u8; 15],
        issued_at: NOW,
        expires_at: NOW + 10,
    };
    let resp = signer.respond(&short_nonce).unwrap();
    let err = verify_response(&resp, AUD, NOW, 0, VerifyPolicy::PqOptional, &mut nonces).unwrap_err();
    assert!(matches!(err, AuthError::NonceTooShort));
}

#[test]
fn nonce_store_consume_and_gc() {
    let mut store = InMemoryNonceStore::new();
    store.record_issued(&[1u8; 16], 100);
    store.record_issued(&[2u8; 16], 10);
    assert!(matches!(store.consume(&[2u8; 16], 11), Err(AuthError::TimeWindow)));
    store.consume(&[1u8; 16], 50).unwrap();
    assert!(matches!(store.consume(&[1u8; 16], 50), Err(AuthError::NonceReplay)));
    assert!(matches!(store.consume(&[3u8; 16], 0), Err(AuthError::NonceReplay)));
    store.gc(20);
    // the expired nonce is gone; the used one (expiry 100) is still remembered
    assert!(matches!(store.consume(&[2u8; 16], 0), Err(AuthError::NonceReplay)));
    assert!(matches!(store.consume(&[1u8; 16], 0), Err(AuthError::NonceReplay)));
}

#[test]
fn signature_errors() {
    let signer = SoftwareSigner::generate_ed25519();
    let pk = signer.classical_public_key();
    let sig = signer.sign_classical(b"msg").unwrap();
    assert!(verify_classical(&pk, b"msg", &sig).is_ok());
    assert!(matches!(verify_classical(&pk, b"other", &sig), Err(AuthError::BadSignature)));
    let short = ClassicalPublicKey { alg: ClassicalAlg::Ed25519, bytes: vec![1, 2, 3] };
    assert!(matches!(verify_classical(&short, b"msg", &sig), Err(AuthError::InvalidKey("ed25519"))));
    let p = SoftwareSigner::generate_p256();
    let psig = p.sign_classical(b"msg").unwrap();
    assert!(matches!(verify_classical(&pk, b"msg", &psig), Err(AuthError::BadSignature)));
}

#[test]
fn fingerprint_base58_roundtrip() {
    let signer = SoftwareSigner::from_ed25519_seed([5u8; 32]);
    let fp = signer.classical_public_key().fingerprint();
    let text = fp.to_base58();
    assert_eq!(Fingerprint::from_base58(&text).unwrap(), fp);
    assert!(Fingerprint::from_base58("0OIl").is_err());
    // deterministic identity from a seed
    let again = SoftwareSigner::from_ed25519_seed([5u8; 32]);
    assert_eq!(again.classical_public_key(), signer.classical_public_key());
    assert_eq!(again.sign_classical(b"m").unwrap(), signer.sign_classical(b"m").unwrap());
}
