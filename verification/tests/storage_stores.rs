use recrypt::storage::capability::{Capability, SubjectKind};
use recrypt::storage::error::AuthError;
use recrypt::storage::fingerprint::PublicKeyFingerprint;
use recrypt::storage::grant::{AccessGrant, GrantId, InMemoryGrantStore};
use recrypt::storage::keyspace::{
    CapabilitySet, DecryptionPolicy, KeyspaceDoc, KeyspaceDocHash, KeyspaceId, Member,
    MemberCapability, RotationMode,
};
use recrypt::storage::keyspace_store::{validate_chain, InMemoryKeyspaceStore};
use recrypt::storage::ownership::InMemoryOwnershipStore;

fn make_fp(seed: u8) -> PublicKeyFingerprint {
    PublicKeyFingerprint::from_bytes([seed; 32])
}

fn make_member(seed: u8) -> Member {
    Member {
        fingerprint: make_fp(seed),
        capabilities: CapabilitySet::from_slice(&[MemberCapability::Read]),
        decryption_policy: DecryptionPolicy::Standalone,
        added_at: 0,
        added_by: make_fp(0),
    }
}

fn v0(id: KeyspaceId, members: Vec<Member>) -> KeyspaceDoc {
    KeyspaceDoc {
        id,
        version: 0,
        parent: None,
        mode: RotationMode::Create,
        name: "test".to_string(),
        root_pk: vec![],
        epoch_pre_pk: [0u8; 32],
        epoch: 0,
        members,
        quorum: 1,
        signatures: vec![],
        created_at: 0,
    }
}

fn v_next(prev: &KeyspaceDoc, new_members: Vec<Member>) -> KeyspaceDoc {
    KeyspaceDoc {
        id: prev.id,
        version: prev.version + 1,
        parent: Some(prev.doc_hash()),
        mode: RotationMode::Additive,
        name: prev.name.clone(),
        root_pk: prev.root_pk.clone(),
        epoch_pre_pk: prev.epoch_pre_pk,
        epoch: prev.epoch + 1,
        members: new_members,
        quorum: prev.quorum,
        signatures: vec![],
        created_at: 0,
    }
}

#[test]
fn keyspace_store_put_v0_get_latest_returns_it() {
    let mut store = InMemoryKeyspaceStore::new();
    let id = KeyspaceId::from_bytes([1; 32]);
    let doc = v0(id, vec![make_member(10)]);
    let hash = store.put(doc.clone()).unwrap();
    let latest = store.get_latest(&id).unwrap();
    assert_eq!(latest.version, 0);
    assert_eq!(latest.doc_hash(), hash);
}

#[test]
fn keyspace_store_put_v0_then_v1_get_latest_returns_v1() {
    let mut store = InMemoryKeyspaceStore::new();
    let id = KeyspaceId::from_bytes([2; 32]);
    let doc0 = v0(id, vec![make_member(10)]);
    store.put(doc0.clone()).unwrap();
    let doc1 = v_next(&doc0, vec![make_member(10), make_member(11)]);
    let hash1 = store.put(doc1.clone()).unwrap();
    let latest = store.get_latest(&id).unwrap();
    assert_eq!(latest.version, 1);
    assert_eq!(latest.doc_hash(), hash1);
}

#[test]
fn keyspace_store_put_v1_without_v0_fails() {
    let mut store = InMemoryKeyspaceStore::new();
    let id = KeyspaceId::from_bytes([3; 32]);
    let mut doc1 = v0(id, vec![make_member(10)]);
    doc1.version = 1;
    doc1.parent = Some(KeyspaceDocHash::from_bytes([99; 32]));
    let err = store.put(doc1).unwrap_err();
    assert!(matches!(err, AuthError::Storage(_)), "expected Storage error, got {err:?}");
}

#[test]
fn keyspace_store_list_versions_returns_ordered_hashes() {
    let mut store = InMemoryKeyspaceStore::new();
    let id = KeyspaceId::from_bytes([30; 32]);
    let doc0 = v0(id, vec![make_member(10)]);
    let h0 = store.put(doc0.clone()).unwrap();
    let doc1 = v_next(&doc0, vec![make_member(10), make_member(11)]);
    let h1 = store.put(doc1.clone()).unwrap();
    let doc2 = v_next(&doc1, vec![make_member(12)]);
    let h2 = store.put(doc2).unwrap();
    assert_eq!(store.list_versions(&id), vec![h0, h1, h2]);
    assert_eq!(store.get_by_hash(&h1).unwrap().version, 1);
}

#[test]
fn duplicate_v0_and_wrong_parent_rejected() {
    let mut store = InMemoryKeyspaceStore::new();
    let id = KeyspaceId::from_bytes([4; 32]);
    let doc0 = v0(id, vec![make_member(1)]);
    store.put(doc0.clone()).unwrap();
    assert!(matches!(store.put(doc0.clone()), Err(AuthError::AlreadyExists(_))));
    let mut doc1 = v_next(&doc0, vec![]);
    doc1.parent = Some(KeyspaceDocHash::from_bytes([7; 32]));
    assert!(matches!(store.put(doc1), Err(AuthError::Storage(_))));
    assert!(validate_chain(None, &doc0).is_ok());
}

#[test]
fn member_listing_follows_latest_version() {
    let mut store = InMemoryKeyspaceStore::new();
    let id = KeyspaceId::from_bytes([60; 32]);
    let doc0 = v0(id, vec![make_member(70), make_member(71)]);
    store.put(doc0.clone()).unwrap();
    let doc1 = v_next(&doc0, vec![make_member(70)]);
    store.put(doc1.clone()).unwrap();
    assert_eq!(store.list_by_member(&make_fp(71)).len(), 0);
    let doc2 = v_next(&doc1, vec![make_member(70), make_member(71)]);
    store.put(doc2).unwrap();
    assert_eq!(store.list_by_member(&make_fp(71)), vec![id]);
}

fn sample_grant(seed: u8) -> AccessGrant {
    AccessGrant::new(
        [seed; 32],
        0,
        make_fp(seed.wrapping_add(1)),
        make_fp(seed),
        CapabilitySet::from_slice(&[MemberCapability::Read]),
        None,
    )
}

#[test]
fn grant_issue_get_revoke_roundtrip() {
    let mut store = InMemoryGrantStore::new();
    let grant = sample_grant(1);
    let id = store.issue(grant.clone()).unwrap();
    let got = store.get(&id).unwrap();
    assert_eq!(got.keyspace_id, grant.keyspace_id);
    assert_eq!(got.subject, grant.subject);
    store.revoke(&id);
    assert!(store.get(&id).is_none());
    store.revoke(&id);
}

#[test]
fn grants_listed_and_duplicates_refused() {
    let mut store = InMemoryGrantStore::new();
    let g1 = sample_grant(1);
    let g2 = sample_grant(2);
    let subject = g1.subject;
    store.issue(g1.clone()).unwrap();
    store.issue(g2.clone()).unwrap();
    assert!(matches!(store.issue(g1.clone()), Err(AuthError::AlreadyExists(_))));
    assert_eq!(store.list_by_subject(&subject).len(), 1);
    let by_keyspace = store.list_by_keyspace(&g1.keyspace_id);
    assert_eq!(by_keyspace.len(), 1);
    assert_eq!(by_keyspace[0].keyspace_id, g1.keyspace_id);
    assert_eq!(GrantId::from_grant(&g1), GrantId::from_grant(&g1.clone()));
    assert!(g1.permits(MemberCapability::Read));
    assert!(!g1.permits(MemberCapability::Write));
    assert!(!g1.is_expired());
    let mut g3 = sample_grant(3);
    g3.expires_at = Some(10);
    assert!(g3.is_expired_at(11));
    assert!(!g3.is_expired_at(10));
}

#[test]
fn test_register_and_ownership() {
    let mut store = InMemoryOwnershipStore::new();
    let owner = make_fp(1);
    let file = *blake3::hash(b"test").as_bytes();
    store.register(&owner, &file).unwrap();
    assert!(store.is_owner(&owner, &file));
    assert!(!store.is_owner(&make_fp(2), &file));
}

#[test]
fn test_register_idempotent() {
    let mut store = InMemoryOwnershipStore::new();
    let owner = make_fp(1);
    let file = *blake3::hash(b"test").as_bytes();
    store.register(&owner, &file).unwrap();
    store.register(&owner, &file).unwrap();
    assert_eq!(store.file_count(), 1);
}

#[test]
fn test_register_conflict() {
    let mut store = InMemoryOwnershipStore::new();
    let file = *blake3::hash(b"test").as_bytes();
    store.register(&make_fp(1), &file).unwrap();
    let result = store.register(&make_fp(2), &file);
    assert!(matches!(result, Err(AuthError::AlreadyExists(_))));
}

#[test]
fn test_transfer_ownership() {
    let mut store = InMemoryOwnershipStore::new();
    let alice = make_fp(1);
    let bob = make_fp(2);
    let file = *blake3::hash(b"test").as_bytes();
    store.register(&alice, &file).unwrap();
    store.transfer(&alice, &bob, &file).unwrap();
    assert!(!store.is_owner(&alice, &file));
    assert!(store.is_owner(&bob, &file));
    assert!(matches!(store.transfer(&alice, &bob, &file), Err(AuthError::NotAuthorized(_))));
    assert!(matches!(store.unregister(&alice, &file), Err(AuthError::NotAuthorized(_))));
    assert_eq!(store.list_owned(&bob), vec![file]);
    store.unregister(&bob, &file).unwrap();
    assert_eq!(store.file_count(), 0);
    let other = *blake3::hash(b"other").as_bytes();
    assert!(matches!(store.transfer(&alice, &bob, &other), Err(AuthError::FileNotFound(_))));
}

#[test]
fn permits_and_is_expired() {
    let fp = PublicKeyFingerprint::from_bytes([0u8; 32]);
    let mut cap = Capability::new(
        [0u8; 32],
        SubjectKind::Keyspace,
        fp,
        fp,
        CapabilitySet::from_slice(&[MemberCapability::Read, MemberCapability::Write]),
        None,
    );
    assert!(cap.permits(MemberCapability::Read));
    assert!(cap.permits(MemberCapability::Write));
    assert!(!cap.permits(MemberCapability::Delegate));
    assert!(!cap.is_expired());

    cap.expires_at = Some(1);
    assert!(cap.is_expired());
}

#[test]
fn capability_builders_and_subject_kinds() {
    let fp = make_fp(0);
    let cap = Capability::new(
        [1u8; 32],
        SubjectKind::File,
        fp,
        fp,
        CapabilitySet::from_slice(&[MemberCapability::Read]),
        None,
    )
    .with_note("n".to_string())
    .with_parent([42u8; 32]);
    assert_eq!(cap.note.as_deref(), Some("n"));
    assert_eq!(cap.parent, Some([42u8; 32]));
    assert!(!cap.is_expired_at(u64::MAX));
    assert_eq!(SubjectKind::parse("keyspace"), Some(SubjectKind::Keyspace));
    assert_eq!(SubjectKind::parse("Keyspace"), None);
    assert_eq!(SubjectKind::Account.as_str(), "account");
}
