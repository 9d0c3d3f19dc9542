use recrypt::auth::attestation::{
    attest_node_id, node_signing_payload, verify_node_attestation, NodeAttestation,
};
use recrypt::auth::challenge::signing_payload;
use recrypt::auth::error::AuthError;
use recrypt::auth::signer::{Signer, SoftwareSigner};
use recrypt::auth::verify::VerifyPolicy;

#[test]
fn attest_verify_roundtrip() {
    let signer = SoftwareSigner::generate_p256();
    let node_id = [3u8; 32];
    let att = attest_node_id(&signer, &node_id).unwrap();
    let fp = verify_node_attestation(&att, VerifyPolicy::PqOptional).unwrap();
    assert_eq!(fp, signer.classical_public_key().fingerprint());
    let decoded = NodeAttestation::from_bytes(&att.to_bytes()).unwrap();
    assert_eq!(decoded, att);
}

#[test]
fn tampered_node_id_fails() {
    let signer = SoftwareSigner::generate_ed25519();
    let mut att = attest_node_id(&signer, &[1u8; 32]).unwrap();
    att.node_id[0] ^= 0xFF;
    assert!(verify_node_attestation(&att, VerifyPolicy::PqOptional).is_err());
}

#[test]
fn hybrid_pq_and_required_policy() {
    let signer = SoftwareSigner::generate_ed25519().with_ml_dsa_65().unwrap();
    let att = attest_node_id(&signer, &[7u8; 32]).unwrap();
    assert!(att.pq.is_some());
    verify_node_attestation(&att, VerifyPolicy::PqRequired).unwrap();
}

#[test]
fn attestation_classical_only_rejected_when_pq_required() {
    let signer = SoftwareSigner::generate_p256();
    let att = attest_node_id(&signer, &[7u8; 32]).unwrap();
    assert!(matches!(
        verify_node_attestation(&att, VerifyPolicy::PqRequired),
        Err(AuthError::PqRequired)
    ));
}

#[test]
fn login_and_node_payloads_differ() {
    assert_ne!(node_signing_payload(&[9u8; 32]), signing_payload(&[9u8; 32]));
}

#[test]
fn node_payload_exact_bytes() {
    let p = node_signing_payload(&[1u8, 2]);
    let mut want = vec![0x83, 0x71];
    want.extend_from_slice(b"identikey-auth/v1");
    want.push(0x70);
    want.extend_from_slice(b"node-attestation");
    want.extend_from_slice(&[0x42, 1, 2]);
    assert_eq!(p, want);
}
