use recrypt::storage::fingerprint::PublicKeyFingerprint;
use recrypt::storage::keyspace::{
    CapabilitySet, DecryptionPolicy, KeyspaceDoc, KeyspaceDocHash, KeyspaceId, Member,
    MemberCapability, RotationMode,
};

fn make_member(seed: u8, caps: &[MemberCapability], added_by_seed: u8) -> Member {
    Member {
        fingerprint: PublicKeyFingerprint::from_bytes([seed; 32]),
        capabilities: CapabilitySet::from_slice(caps),
        decryption_policy: DecryptionPolicy::Standalone,
        added_at: 1000,
        added_by: PublicKeyFingerprint::from_bytes([added_by_seed; 32]),
    }
}

fn make_doc() -> KeyspaceDoc {
    KeyspaceDoc {
        id: KeyspaceId::from_bytes([1u8; 32]),
        version: 0,
        parent: None,
        mode: RotationMode::Create,
        name: "test-keyspace".to_string(),
        root_pk: vec![0u8; 32],
        epoch_pre_pk: [2u8; 32],
        epoch: 0,
        members: vec![
            make_member(10, &[MemberCapability::Read, MemberCapability::SignRotation], 10),
            make_member(20, &[MemberCapability::Read, MemberCapability::Write], 10),
            make_member(30, &[MemberCapability::Admin, MemberCapability::SignRotation], 10),
        ],
        quorum: 2,
        signatures: vec![],
        created_at: 1700000000,
    }
}

#[test]
fn doc_hash_is_deterministic() {
    let doc = make_doc();
    let h1 = doc.doc_hash();
    let h2 = doc.doc_hash();
    assert_eq!(h1, h2, "doc_hash must be deterministic across calls");
}

#[test]
fn canonical_bytes_deterministic_across_constructions() {
    let doc_a = make_doc();
    let doc_b = make_doc();
    assert_eq!(
        doc_a.canonical_bytes(),
        doc_b.canonical_bytes(),
        "canonical_bytes must be identical for independently constructed docs with same data"
    );
}

#[test]
fn signers_returns_only_sign_rotation_members() {
    let doc = make_doc();
    let signers = doc.signers();
    assert_eq!(signers.len(), 2);
    assert_eq!(signers[0].fingerprint, PublicKeyFingerprint::from_bytes([10; 32]));
    assert_eq!(signers[1].fingerprint, PublicKeyFingerprint::from_bytes([30; 32]));
}

#[test]
fn keyspace_id_display_roundtrip() {
    let id = KeyspaceId::from_bytes([42u8; 32]);
    let s = id.to_string();
    let recovered: KeyspaceId = s.parse().unwrap();
    assert_eq!(id, recovered);
}

#[test]
fn doc_hash_display_roundtrip() {
    let doc = make_doc();
    let hash = doc.doc_hash();
    let s = hash.to_string();
    let recovered: KeyspaceDocHash = s.parse().unwrap();
    assert_eq!(hash, recovered);
}

#[test]
fn test_fingerprint_roundtrip() {
    let bytes = [42u8; 32];
    let fp = PublicKeyFingerprint::from_bytes(bytes);
    let b58 = fp.to_base58();
    let recovered = PublicKeyFingerprint::from_base58(&b58).unwrap();
    assert_eq!(fp, recovered);
}

#[test]
fn test_from_public_key() {
    let pubkey = b"test public key bytes";
    let fp = PublicKeyFingerprint::from_public_key(pubkey);
    let fp2 = PublicKeyFingerprint::from_public_key(pubkey);
    assert_eq!(fp, fp2);
    let fp3 = PublicKeyFingerprint::from_public_key(b"different key");
    assert_ne!(fp, fp3);
}

#[test]
fn member_fingerprints_in_order() {
    let doc = make_doc();
    let fps = doc.member_fingerprints();
    assert_eq!(fps.len(), 3);
    assert_eq!(*fps[2], PublicKeyFingerprint::from_bytes([30; 32]));
}

#[test]
fn capability_tags_and_parse() {
    assert_eq!(MemberCapability::SignRotation.as_str(), "sign_rotation");
    assert_eq!(MemberCapability::parse("WRITE"), Some(MemberCapability::Write));
    assert_eq!(MemberCapability::parse("Sign_Rotation"), Some(MemberCapability::SignRotation));
    assert_eq!(MemberCapability::parse("owner"), None);
    let set = CapabilitySet::from_slice(&[MemberCapability::Admin, MemberCapability::Read]);
    assert_eq!(set.to_vec(), vec![MemberCapability::Read, MemberCapability::Admin]);
    assert_eq!(set.len(), 2);
    assert!(set.contains(MemberCapability::Admin));
    assert!(!set.contains(MemberCapability::Write));
}

#[test]
fn canonical_bytes_layout() {
    let mut doc = make_doc();
    doc.members = vec![];
    doc.name = "n".to_string();
    doc.root_pk = vec![];
    let b = doc.canonical_bytes();
    let mut want: Vec<u8> = b"IdentikeyKeyspaceDoc\x01".to_vec();
    want.extend_from_slice(&1u32.to_le_bytes());
    want.extend_from_slice(&[1u8; 32]);
    want.extend_from_slice(&0u64.to_le_bytes());
    want.push(0); // no parent
    want.push(1); // Create
    want.extend_from_slice(&1u32.to_le_bytes());
    want.push(b'n');
    want.extend_from_slice(&0u32.to_le_bytes());
    want.extend_from_slice(&[2u8; 32]);
    want.extend_from_slice(&0u64.to_le_bytes());
    want.extend_from_slice(&0u32.to_le_bytes()); // members
    want.push(2); // quorum
    want.extend_from_slice(&0u32.to_le_bytes()); // signatures
    want.extend_from_slice(&1700000000u64.to_le_bytes());
    assert_eq!(b, want);
}

#[test]
fn parse_rejects_bad_ids() {
    assert!("not base58 0OIl".parse::<KeyspaceId>().is_err());
    let short = PublicKeyFingerprint::from_bytes([1u8; 32]).to_base58();
    assert!(short[..10].parse::<KeyspaceId>().is_err());
}
