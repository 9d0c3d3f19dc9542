use recrypt::storage::nesting::cbor_nesting_within;
use fips204::traits::SerDes;
use recrypt::proxy::sign::{SigningKeys, VerifyPolicy, VerifyingKeys};
use recrypt::storage::capability::{Capability, SubjectKind};
use recrypt::storage::capability_wire::{
    accept_signed, CapabilityFields, LeafShape, SubjectShape, WireError,
};
use recrypt::storage::error::AuthError;
use recrypt::storage::fingerprint::PublicKeyFingerprint;
use recrypt::storage::keyspace::{CapabilitySet, MemberCapability as Permission};

fn test_keys() -> (SigningKeys, VerifyingKeys, PublicKeyFingerprint) {
    let sk = ed25519_dalek::SigningKey::generate(&mut rand_core::OsRng);
    let (pqpk, pqsk) = fips204::ml_dsa_87::try_keygen().unwrap();
    let signing = SigningKeys { ed25519: sk.to_bytes(), ml_dsa: Some(pqsk.into_bytes().to_vec()) };
    let public = sk.verifying_key().to_bytes();
    let verifying = VerifyingKeys { ed25519: public, ml_dsa: Some(pqpk.into_bytes().to_vec()) };
    let fp = PublicKeyFingerprint::from_public_key(&public);
    (signing, verifying, fp)
}

fn make_cap(issuer: PublicKeyFingerprint, granted_to: PublicKeyFingerprint) -> Capability {
    Capability::new(
        [7u8; 32],
        SubjectKind::File,
        granted_to,
        issuer,
        CapabilitySet::from_slice(&[Permission::Read]),
        None,
    )
}

#[test]
fn sign_then_verify_roundtrip() {
    let (signing, verifying, issuer_fp) = test_keys();
    let grantee_fp = PublicKeyFingerprint::from_bytes([2u8; 32]);

    let cap = make_cap(issuer_fp, grantee_fp);
    let bytes = cap.sign(&signing).unwrap();

    let parsed = Capability::verify(&bytes, &verifying, VerifyPolicy::PqRequired).unwrap();
    assert_eq!(parsed.subject, cap.subject);
    assert_eq!(parsed.subject_kind, SubjectKind::File);
    assert_eq!(parsed.granted_to, grantee_fp);
    assert_eq!(parsed.issuer, issuer_fp);
    assert!(parsed.permits(Permission::Read));
    assert!(!parsed.permits(Permission::Write));
}

#[test]
fn verify_rejects_tampered_subject() {
    let (signing, verifying, issuer_fp) = test_keys();
    let grantee_fp = PublicKeyFingerprint::from_bytes([2u8; 32]);
    let cap = make_cap(issuer_fp, grantee_fp);
    let bytes = cap.sign(&signing).unwrap();

    let mut tampered = bytes.clone();
    let mid = tampered.len() / 2;
    tampered[mid] = tampered[mid].wrapping_add(1);

    let result = Capability::verify(&tampered, &verifying, VerifyPolicy::PqRequired);
    assert!(result.is_err());
}

#[test]
fn verify_rejects_wrong_issuer_keys() {
    let (signing, _, issuer_fp) = test_keys();
    let (_, other_verifying, _) = test_keys();
    let grantee_fp = PublicKeyFingerprint::from_bytes([2u8; 32]);

    let cap = make_cap(issuer_fp, grantee_fp);
    let bytes = cap.sign(&signing).unwrap();

    assert!(matches!(
        Capability::verify(&bytes, &other_verifying, VerifyPolicy::PqRequired),
        Err(AuthError::InvalidSignature)
    ));
}

#[test]
fn verify_full_checks_expiry_and_permission() {
    let (signing, verifying, issuer_fp) = test_keys();
    let grantee_fp = PublicKeyFingerprint::from_bytes([2u8; 32]);

    let mut cap = make_cap(issuer_fp, grantee_fp);
    cap.expires_at = Some(1);
    let bytes = cap.sign(&signing).unwrap();

    assert!(matches!(
        Capability::verify_full(&bytes, &verifying, VerifyPolicy::PqRequired, Permission::Read),
        Err(AuthError::CapabilityExpired)
    ));

    let cap2 = make_cap(issuer_fp, grantee_fp);
    let bytes2 = cap2.sign(&signing).unwrap();
    assert!(matches!(
        Capability::verify_full(&bytes2, &verifying, VerifyPolicy::PqRequired, Permission::Write),
        Err(AuthError::OperationNotPermitted(_))
    ));
}

#[test]
fn unsigned_envelope_roundtrip_via_multiformat() {
    let fp = PublicKeyFingerprint::from_bytes([0u8; 32]);
    let cap = Capability::new(
        [9u8; 32],
        SubjectKind::Account,
        fp,
        fp,
        CapabilitySet::from_slice(&[Permission::Admin]),
        Some(1_700_000_000),
    )
    .with_note("test".into());

    let bytes = cap.to_envelope().unwrap();
    let parsed = Capability::from_envelope(&bytes).unwrap();
    assert_eq!(parsed, cap);
}

#[test]
fn parent_field_round_trips() {
    let fp = PublicKeyFingerprint::from_bytes([0u8; 32]);
    let cap = Capability::new(
        [1u8; 32],
        SubjectKind::File,
        fp,
        fp,
        CapabilitySet::from_slice(&[Permission::Read]),
        None,
    )
    .with_parent([42u8; 32]);

    let bytes = cap.to_envelope().unwrap();
    let parsed = Capability::from_envelope(&bytes).unwrap();
    assert_eq!(parsed.parent, Some([42u8; 32]));
}

fn sample_fields() -> CapabilityFields {
    let fp = PublicKeyFingerprint::from_bytes([3u8; 32]);
    let cap = Capability::new(
        [5u8; 32],
        SubjectKind::Keyspace,
        fp,
        fp,
        CapabilitySet::from_slice(&[Permission::Read, Permission::SignRotation]),
        Some(99),
    );
    cap.to_fields()
}

#[test]
fn fields_roundtrip_through_from_fields() {
    let fp = PublicKeyFingerprint::from_bytes([3u8; 32]);
    let cap = Capability::new(
        [5u8; 32],
        SubjectKind::Keyspace,
        fp,
        fp,
        CapabilitySet::from_slice(&[Permission::Read, Permission::SignRotation]),
        Some(99),
    )
    .with_note("n".into())
    .with_parent([8u8; 32]);
    let fields = cap.to_fields();
    assert_eq!(
        fields.permissions,
        Some(vec!["read".to_string(), "sign_rotation".to_string()])
    );
    assert_eq!(fields.expires_at, Some(LeafShape::Tagged { tag: 1, unsigned: Some(99) }));
    let back = Capability::from_fields(fields).unwrap();
    assert_eq!(back, cap);
}

#[test]
fn from_fields_reports_first_fault() {
    let mut f = sample_fields();
    f.shape = SubjectShape::NotMap;
    assert!(matches!(Capability::from_fields(f), Err(WireError::Envelope("subject is not a map"))));

    let mut f = sample_fields();
    f.type_tag = Some("recrypt.grant".to_string());
    f.format_version = None;
    match Capability::from_fields(f) {
        Err(WireError::WrongType { actual, .. }) => assert_eq!(actual, "recrypt.grant"),
        other => panic!("unexpected {other:?}"),
    }

    let mut f = sample_fields();
    f.format_version = Some(2);
    assert!(matches!(
        Capability::from_fields(f),
        Err(WireError::VersionMismatch { expected: 1, actual: 2 })
    ));

    let mut f = sample_fields();
    f.subject = Some(vec![0u8; 31]);
    assert!(matches!(
        Capability::from_fields(f),
        Err(WireError::InvalidFormat("subject must be 32 bytes"))
    ));

    let mut f = sample_fields();
    f.subject_kind = Some("folder".to_string());
    assert!(matches!(
        Capability::from_fields(f),
        Err(WireError::InvalidFormat("unknown subject-kind"))
    ));

    let mut f = sample_fields();
    f.issuer = None;
    assert!(matches!(Capability::from_fields(f), Err(WireError::MissingField("issuer"))));

    let mut f = sample_fields();
    f.expires_at = Some(LeafShape::Tagged { tag: 2, unsigned: Some(5) });
    assert!(matches!(
        Capability::from_fields(f),
        Err(WireError::InvalidFormat("expires-at is not CBOR tag 1"))
    ));

    let mut f = sample_fields();
    f.expires_at = Some(LeafShape::Tagged { tag: 1, unsigned: None });
    assert!(matches!(
        Capability::from_fields(f),
        Err(WireError::InvalidFormat("expires-at tag 1 inner is not unsigned"))
    ));

    let mut f = sample_fields();
    f.parent = Some(vec![1u8; 3]);
    assert!(matches!(
        Capability::from_fields(f),
        Err(WireError::InvalidFormat("parent must be 32 bytes"))
    ));
}

#[test]
fn absent_or_unknown_permissions_grant_nothing() {
    let mut f = sample_fields();
    f.permissions = None;
    let cap = Capability::from_fields(f).unwrap();
    assert!(!cap.permits(Permission::Read));

    let mut f = sample_fields();
    f.permissions = Some(vec!["WRITE".to_string(), "fly".to_string()]);
    let cap = Capability::from_fields(f).unwrap();
    assert!(cap.permits(Permission::Write));
    assert!(!cap.permits(Permission::Read));
}

#[test]
fn accept_signed_decides_by_parts() {
    let fp = PublicKeyFingerprint::from_bytes([3u8; 32]);
    let (_, verifying, _) = test_keys();
    let cap = make_cap(fp, fp);
    assert!(matches!(
        accept_signed(
            Err(WireError::MissingField("type")),
            Some(vec![0u8; 64]),
            None,
            b"p",
            &verifying,
            VerifyPolicy::PqOptional
        ),
        Err(AuthError::InvalidEncoding(_))
    ));
    assert!(matches!(
        accept_signed(Ok(cap.clone()), Some(vec![0u8; 63]), None, b"p", &verifying, VerifyPolicy::PqOptional),
        Err(AuthError::InvalidSignature)
    ));
    assert!(matches!(
        accept_signed(Ok(cap), Some(vec![0u8; 64]), None, b"p", &verifying, VerifyPolicy::PqOptional),
        Err(AuthError::InvalidSignature)
    ));
}

#[test]
fn wrapped_subject_digest_and_peek_issuer() {
    let (signing, _, issuer_fp) = test_keys();
    let cap = make_cap(issuer_fp, PublicKeyFingerprint::from_bytes([2u8; 32]));
    let bytes = cap.sign(&signing).unwrap();
    assert_eq!(Capability::peek_issuer(&bytes).unwrap(), issuer_fp);
    let d1 = Capability::wrapped_subject_digest(&bytes).unwrap();
    let d2 = Capability::wrapped_subject_digest(&bytes).unwrap();
    assert_eq!(d1, d2);
    assert!(matches!(
        Capability::wrapped_subject_digest(&[0xff, 0x00]),
        Err(AuthError::InvalidSignature)
    ));
}

#[test]
fn authorize_at_orders_expiry_before_permission() {
    let fp = PublicKeyFingerprint::from_bytes([0u8; 32]);
    let mut cap = make_cap(fp, fp);
    cap.expires_at = Some(100);
    assert!(matches!(
        cap.clone().authorize_at(101, Permission::Write),
        Err(AuthError::CapabilityExpired)
    ));
    assert!(matches!(
        cap.clone().authorize_at(100, Permission::Write),
        Err(AuthError::OperationNotPermitted(_))
    ));
    assert_eq!(cap.clone().authorize_at(100, Permission::Read).unwrap(), cap);
}

#[test]
fn wrapped_subject_digests_differ_between_capabilities() {
    let (signing, _, issuer_fp) = test_keys();
    let a = make_cap(issuer_fp, PublicKeyFingerprint::from_bytes([2u8; 32])).sign(&signing).unwrap();
    let b = make_cap(issuer_fp, PublicKeyFingerprint::from_bytes([3u8; 32])).sign(&signing).unwrap();
    assert_ne!(
        Capability::wrapped_subject_digest(&a).unwrap(),
        Capability::wrapped_subject_digest(&b).unwrap()
    );
}

#[test]
fn signing_without_post_quantum_key_succeeds() {
    let (mut signing, mut verifying, issuer_fp) = test_keys();
    signing.ml_dsa = None;
    verifying.ml_dsa = None;
    let bytes = make_cap(issuer_fp, issuer_fp).sign(&signing).unwrap();
    assert!(Capability::verify(&bytes, &verifying, VerifyPolicy::PqOptional).is_ok());
}

#[test]
fn envelope_readers_report_where_they_fail() {
    assert!(matches!(Capability::from_envelope(&[0xff, 0x00]), Err(WireError::Envelope("parse envelope"))));
    assert!(matches!(Capability::peek_issuer(&[0xff, 0x00]), Err(AuthError::InvalidSignature)));
    let (_, verifying, _) = test_keys();
    assert!(matches!(
        Capability::verify(&[0xff, 0x00], &verifying, VerifyPolicy::PqOptional),
        Err(AuthError::InvalidSignature)
    ));
    // An unsigned envelope is not a wrapped one.
    let fp = PublicKeyFingerprint::from_bytes([0u8; 32]);
    let unsigned = make_cap(fp, fp).to_envelope().unwrap();
    assert!(matches!(Capability::peek_issuer(&unsigned), Err(AuthError::InvalidSignature)));
    assert!(matches!(
        Capability::verify(&unsigned, &verifying, VerifyPolicy::PqOptional),
        Err(AuthError::InvalidSignature)
    ));
}

#[test]
fn signed_envelope_reads_back_every_field() {
    let (signing, verifying, issuer_fp) = test_keys();
    let mut cap = make_cap(issuer_fp, PublicKeyFingerprint::from_bytes([5u8; 32]))
        .with_note("delegated".into())
        .with_parent([3u8; 32]);
    cap.expires_at = Some(4_000_000_000);
    let bytes = cap.sign(&signing).unwrap();
    let parsed = Capability::verify(&bytes, &verifying, VerifyPolicy::PqRequired).unwrap();
    assert_eq!(parsed, cap);
    assert_eq!(Capability::peek_issuer(&bytes).unwrap(), issuer_fp);
}

#[test]
fn note_is_read_back_in_normal_form_c() {
    let fp = PublicKeyFingerprint::from_bytes([0u8; 32]);
    let cap = make_cap(fp, fp).with_note("e\u{301}te".into());
    let bytes = cap.to_envelope().unwrap();
    let parsed = Capability::from_envelope(&bytes).unwrap();
    assert_eq!(parsed.note, Some("\u{e9}te".to_string()));
    assert_eq!(parsed.subject, cap.subject);
}

#[test]
fn deeply_nested_input_is_refused_before_decoding() {
    let mut deep = vec![0x81u8; 1 << 20];
    deep.push(0x00);
    assert!(!cbor_nesting_within(&deep, 96));
    assert!(matches!(Capability::from_envelope(&deep), Err(WireError::Envelope("nesting too deep"))));
    let (_, verifying, _) = test_keys();
    assert!(matches!(
        Capability::verify(&deep, &verifying, VerifyPolicy::PqOptional),
        Err(AuthError::InvalidSignature)
    ));
    assert!(matches!(Capability::peek_issuer(&deep), Err(AuthError::InvalidSignature)));
    assert!(matches!(Capability::wrapped_subject_digest(&deep), Err(AuthError::InvalidSignature)));
}

#[test]
fn nesting_scan_counts_open_containers() {
    // [[1]] nests two containers; a map {1: [2]} nests two as well.
    assert!(cbor_nesting_within(&[0x81, 0x81, 0x01], 2));
    assert!(!cbor_nesting_within(&[0x81, 0x81, 0x01], 1));
    assert!(cbor_nesting_within(&[0xa1, 0x01, 0x81, 0x02], 2));
    assert!(!cbor_nesting_within(&[0xa1, 0x01, 0x81, 0x02], 1));
    // Sibling containers do not add up: [[1], [2]] nests two.
    assert!(cbor_nesting_within(&[0x82, 0x81, 0x01, 0x81, 0x02], 2));
    // A byte string's payload is skipped, not read as heads.
    assert!(cbor_nesting_within(&[0x43, 0x81, 0x81, 0x81], 0));
    // A signed capability nests well within the bound.
    let (signing, _, issuer_fp) = test_keys();
    let bytes = make_cap(issuer_fp, issuer_fp).sign(&signing).unwrap();
    assert!(cbor_nesting_within(&bytes, 16));
}
