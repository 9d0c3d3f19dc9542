use recrypt::storage::fingerprint::PublicKeyFingerprint;
use recrypt::storage::grant::{AccessGrant, GrantId};
use recrypt::storage::keyspace::{
    CapabilitySet, DecryptionPolicy, KeyspaceDoc, KeyspaceId, Member, MemberCapability,
    RotationMode,
};
use recrypt::storage::rows::{caps_to_string, string_to_caps, GrantRow, GrantRowError};

fn fp(seed: u8) -> PublicKeyFingerprint {
    PublicKeyFingerprint::from_bytes([seed; 32])
}

fn sample_grant() -> AccessGrant {
    let mut g = AccessGrant::new(
        [4u8; 32],
        u64::MAX,
        fp(1),
        fp(2),
        CapabilitySet::from_slice(&[MemberCapability::Write, MemberCapability::Delegate]),
        Some(u64::MAX - 1),
    );
    g.delegation_depth = 200;
    g.parent_grant = Some(GrantId::from_bytes([9u8; 32]));
    g.created_at = 1_700_000_000;
    g
}

#[test]
fn caps_text_is_comma_joined_tags() {
    let s = CapabilitySet::from_slice(&[MemberCapability::SignRotation, MemberCapability::Read]);
    assert_eq!(caps_to_string(&s), "read,sign_rotation");
    assert_eq!(caps_to_string(&CapabilitySet::new()), "");
}

#[test]
fn caps_text_roundtrip() {
    let all = [
        MemberCapability::Read,
        MemberCapability::Write,
        MemberCapability::Delegate,
        MemberCapability::Admin,
        MemberCapability::SignRotation,
    ];
    for mask in 0u32..32 {
        let caps: Vec<MemberCapability> =
            (0..5).filter(|i| mask & (1 << i) != 0).map(|i| all[i as usize]).collect();
        let s = CapabilitySet::from_slice(&caps);
        assert_eq!(string_to_caps(&caps_to_string(&s)), s);
    }
}

#[test]
fn stored_caps_text_skips_unknown_and_empty_pieces() {
    let s = string_to_caps("READ,,fly,admin,");
    assert!(s.contains(MemberCapability::Read));
    assert!(s.contains(MemberCapability::Admin));
    assert!(!s.contains(MemberCapability::Write));
    assert_eq!(s.len(), 2);
    assert_eq!(string_to_caps(""), CapabilitySet::new());
    assert_eq!(string_to_caps("read write"), CapabilitySet::new());
}

#[test]
fn grant_row_roundtrip() {
    let g = sample_grant();
    let row = GrantRow::from_grant(&g);
    assert_eq!(row.keyspace_version, -1);
    assert_eq!(row.delegation_depth, 200);
    assert_eq!(row.permissions, "write,delegate");
    assert_eq!(row.grant_id, GrantId::from_grant(&g).to_base58());
    let back = row.to_grant().unwrap();
    assert_eq!(back.keyspace_id, g.keyspace_id);
    assert_eq!(back.keyspace_version, u64::MAX);
    assert_eq!(back.subject, g.subject);
    assert_eq!(back.issuer, g.issuer);
    assert_eq!(back.capabilities, g.capabilities);
    assert_eq!(back.expires_at, g.expires_at);
    assert_eq!(back.delegation_depth, 200);
    assert_eq!(back.parent_grant, g.parent_grant);
    assert_eq!(back.created_at, g.created_at);
    assert!(back.signature.is_none());
    assert_eq!(GrantId::from_grant(&back), GrantId::from_grant(&g));
}

#[test]
fn grant_row_refuses_bad_columns() {
    let g = sample_grant();
    let mut row = GrantRow::from_grant(&g);
    row.subject = "not_base58!".to_string();
    assert_eq!(row.to_grant().unwrap_err(), GrantRowError { field: "subject" });

    let mut row = GrantRow::from_grant(&g);
    row.keyspace_id = "1111".to_string();
    assert_eq!(row.to_grant().unwrap_err(), GrantRowError { field: "keyspace_id" });

    let mut row = GrantRow::from_grant(&g);
    row.parent_grant = Some("2".to_string());
    assert_eq!(row.to_grant().unwrap_err(), GrantRowError { field: "parent_grant" });
}

fn member(seed: u8, caps: &[MemberCapability]) -> Member {
    Member {
        fingerprint: fp(seed),
        capabilities: CapabilitySet::from_slice(caps),
        decryption_policy: DecryptionPolicy::Standalone,
        added_at: 5,
        added_by: fp(0),
    }
}

fn doc() -> KeyspaceDoc {
    KeyspaceDoc {
        id: KeyspaceId::from_bytes([1u8; 32]),
        version: 3,
        parent: None,
        mode: RotationMode::Revoke { removed: vec![fp(7)] },
        name: "docs".to_string(),
        root_pk: vec![1, 2, 3],
        epoch_pre_pk: [2u8; 32],
        epoch: 1,
        members: vec![member(10, &[MemberCapability::Read])],
        quorum: 1,
        signatures: vec![vec![5u8; 3]],
        created_at: 10,
    }
}

#[test]
fn canonical_bytes_tell_documents_apart() {
    let base = doc().canonical_bytes();

    let mut d = doc();
    d.members = vec![member(10, &[MemberCapability::Write])];
    assert_ne!(d.canonical_bytes(), base);

    let mut d = doc();
    d.name = "doc".to_string();
    d.root_pk = vec![b's', 1, 2, 3];
    assert_ne!(d.canonical_bytes(), base);

    let mut d = doc();
    d.mode = RotationMode::Burn { removed: vec![fp(7)] };
    assert_ne!(d.canonical_bytes(), base);

    let mut d = doc();
    d.signatures = vec![vec![5u8; 2], vec![5u8; 1]];
    assert_ne!(d.canonical_bytes(), base);

    assert_eq!(doc().canonical_bytes(), base);
}

#[test]
fn grant_ids_tell_grants_apart() {
    let g = sample_grant();
    let mut h = g.clone();
    h.delegation_depth = 1;
    assert_ne!(GrantId::from_grant(&g), GrantId::from_grant(&h));
    let mut h = g.clone();
    h.capabilities = CapabilitySet::from_slice(&[MemberCapability::Write]);
    assert_ne!(GrantId::from_grant(&g), GrantId::from_grant(&h));

    let mut a = g.clone();
    a.expires_at = None;
    let mut b = g.clone();
    b.expires_at = Some(0);
    assert_ne!(GrantId::from_grant(&a), GrantId::from_grant(&b));
}
