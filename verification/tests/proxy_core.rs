use fips204::traits::SerDes;
use recrypt::proxy::coefficients::{bytes_to_coefficients, coefficients_to_bytes};
use recrypt::proxy::error::{CoreError, PreError};
use recrypt::proxy::hybrid::{check_plaintext_hash, MAX_ENCRYPT_FILE_SIZE, MAX_IN_MEMORY_SIZE};
use recrypt::proxy::keymaterial::KeyMaterial;
use recrypt::proxy::pre::{BackendId, Ciphertext, LatticeBackend, PreBackend, PublicKey, RecryptKey};
use recrypt::proxy::sign::{sign_message, verify_message, SigningKeys, VerifyPolicy, VerifyingKeys};

#[test]
fn test_max_encrypt_file_size_const() {
    assert_eq!(MAX_ENCRYPT_FILE_SIZE, 1_u64 << 40);
}

#[test]
fn test_lattice_backend_creation() {
    if LatticeBackend::is_available() {
        let backend = LatticeBackend::new().unwrap();
        assert_eq!(backend.name(), "OpenFHE BFV/PRE (Post-Quantum)");
        assert!(backend.is_post_quantum());
    } else {
        assert!(matches!(LatticeBackend::new(), Err(PreError::BackendUnavailable(_))));
    }
}

#[test]
fn test_is_available_matches_feature() {
    // This build carries no OpenFHE.
    let available = LatticeBackend::is_available();
    assert_eq!(available, false);
}

#[test]
fn test_roundtrip_even() {
    let original = b"Hello!";
    let coeffs = bytes_to_coefficients(original);
    let recovered = coefficients_to_bytes(&coeffs, original.len());
    assert_eq!(&recovered, original);
}

#[test]
fn test_roundtrip_odd() {
    let original = b"Hello";
    let coeffs = bytes_to_coefficients(original);
    let recovered = coefficients_to_bytes(&coeffs, original.len());
    assert_eq!(&recovered, original);
}

#[test]
fn test_roundtrip_high_bytes() {
    let original: Vec<u8> = (0u8..=255u8).collect();
    let coeffs = bytes_to_coefficients(&original);
    let recovered = coefficients_to_bytes(&coeffs, original.len());
    assert_eq!(recovered, original);
}

#[test]
fn coefficient_values() {
    assert_eq!(bytes_to_coefficients(&[0x01, 0x02, 0xff]), vec![0x0201, 0xff]);
    assert_eq!(bytes_to_coefficients(&[0x00, 0x80]), vec![-32768]);
    assert_eq!(coefficients_to_bytes(&[-1, 5], 3), vec![0xff, 0xff, 0x05]);
}

#[test]
fn key_material_roundtrip_and_errors() {
    let k = KeyMaterial {
        symmetric_key: [1u8; 32],
        nonce: [2u8; 24],
        plaintext_hash: [3u8; 32],
        plaintext_size: 0x0102_0304,
    };
    let bytes = k.to_bytes().unwrap();
    assert_eq!(bytes[0], 1);
    assert_eq!(&bytes[89..96], &[4, 3, 2, 1, 0, 0, 0]);
    let back = KeyMaterial::from_bytes(&bytes).unwrap();
    assert_eq!(back.symmetric_key, k.symmetric_key);
    assert_eq!(back.nonce, k.nonce);
    assert_eq!(back.plaintext_hash, k.plaintext_hash);
    assert_eq!(back.plaintext_size, k.plaintext_size);
    let mut bad = bytes;
    bad[0] = 2;
    assert!(matches!(KeyMaterial::from_bytes(&bad), Err(PreError::Deserialization(_))));
    assert!(matches!(KeyMaterial::from_bytes(&bytes[..95]), Err(PreError::Deserialization(_))));
    let big = KeyMaterial { plaintext_size: 1u64 << 56, ..k };
    assert!(matches!(big.to_bytes(), Err(PreError::Serialization(_))));
}

#[test]
fn backend_ids_and_key_encodings() {
    assert_eq!(BackendId::try_from_u8(255).unwrap(), BackendId::Mock);
    assert!(BackendId::try_from_u8(7).is_err());
    assert_eq!(BackendId::parse("Post-Quantum").unwrap(), BackendId::Lattice);
    assert_eq!(BackendId::parse("umbral").unwrap(), BackendId::EcSecp256k1);
    assert!(BackendId::parse("rsa").is_err());
    assert_eq!(BackendId::EcPairing.to_string(), "ec-pairing");

    let pk = PublicKey::new(BackendId::Lattice, vec![9, 8, 7]);
    assert_eq!(pk.to_bytes(), vec![0, 9, 8, 7]);
    let back = PublicKey::from_bytes(&pk.to_bytes()).unwrap();
    assert_eq!(back.as_bytes(), pk.as_bytes());
    assert!(PublicKey::from_bytes(&[]).is_err());

    let rk = RecryptKey::new(
        BackendId::Mock,
        PublicKey::new(BackendId::Mock, vec![1]),
        PublicKey::new(BackendId::Mock, vec![2, 3]),
        vec![4, 5, 6],
    );
    let bytes = rk.to_bytes();
    assert_eq!(bytes, vec![255, 2, 0, 0, 0, 255, 1, 3, 0, 0, 0, 255, 2, 3, 4, 5, 6]);
    let back = RecryptKey::from_bytes(&bytes).unwrap();
    assert_eq!(back.to_bytes(), bytes);
    assert!(RecryptKey::from_bytes(&bytes[..8]).is_err());

    let ct = Ciphertext::new(BackendId::EcPairing, 1, vec![7, 7]);
    assert_eq!(ct.to_bytes(), vec![1, 1, 7, 7]);
    let back = Ciphertext::from_bytes(&ct.to_bytes()).unwrap();
    assert_eq!(back.level(), 1);
    assert_eq!(back.as_bytes(), &[7, 7]);
}

fn hybrid_keys() -> (SigningKeys, VerifyingKeys) {
    let sk = ed25519_dalek::SigningKey::generate(&mut rand_core::OsRng);
    let (pqpk, pqsk) = fips204::ml_dsa_87::try_keygen().unwrap();
    (
        SigningKeys { ed25519: sk.to_bytes(), ml_dsa: Some(pqsk.into_bytes().to_vec()) },
        VerifyingKeys {
            ed25519: sk.verifying_key().to_bytes(),
            ml_dsa: Some(pqpk.into_bytes().to_vec()),
        },
    )
}

fn classical_keys() -> (SigningKeys, VerifyingKeys) {
    let sk = ed25519_dalek::SigningKey::generate(&mut rand_core::OsRng);
    (
        SigningKeys { ed25519: sk.to_bytes(), ml_dsa: None },
        VerifyingKeys { ed25519: sk.verifying_key().to_bytes(), ml_dsa: None },
    )
}

#[test]
fn hybrid_roundtrip_with_either_policy() {
    let (signing, verifying) = hybrid_keys();
    let msg = b"Test multi-signature";
    let sig = sign_message(msg, &signing).unwrap();
    assert!(sig.ml_dsa_sig.is_some());
    assert!(verify_message(msg, &sig, &verifying, VerifyPolicy::PqOptional).unwrap());
    assert!(verify_message(msg, &sig, &verifying, VerifyPolicy::PqRequired).unwrap());
}

#[test]
fn classical_only_roundtrip_under_pq_optional() {
    let (signing, verifying) = classical_keys();
    let msg = b"ED25519-only signature";
    let sig = sign_message(msg, &signing).unwrap();
    assert!(sig.ml_dsa_sig.is_none());
    assert!(verify_message(msg, &sig, &verifying, VerifyPolicy::PqOptional).unwrap());
}

#[test]
fn classical_only_rejected_under_pq_required() {
    let (signing, verifying) = classical_keys();
    let sig = sign_message(b"msg", &signing).unwrap();
    let err = verify_message(b"msg", &sig, &verifying, VerifyPolicy::PqRequired).unwrap_err();
    assert!(matches!(err, CoreError::Signature(ref m) if m.contains("ML-DSA-87 signature required")));
}

#[test]
fn tampered_message_fails() {
    let (signing, verifying) = hybrid_keys();
    let sig = sign_message(b"Original", &signing).unwrap();
    let result = verify_message(b"Tampered", &sig, &verifying, VerifyPolicy::PqOptional);
    assert!(result.is_err());
}

#[test]
fn wrong_ed25519_key_fails() {
    let (signing, _) = hybrid_keys();
    let (_, wrong) = hybrid_keys();
    let sig = sign_message(b"msg", &signing).unwrap();
    let result = verify_message(b"msg", &sig, &wrong, VerifyPolicy::PqOptional);
    assert!(result.is_err());
}

#[test]
fn pq_signature_present_but_verifier_has_no_pq_key_fails() {
    let (signing, hybrid_verifying) = hybrid_keys();
    let verifying = VerifyingKeys { ed25519: hybrid_verifying.ed25519, ml_dsa: None };
    let sig = sign_message(b"msg", &signing).unwrap();
    let err = verify_message(b"msg", &sig, &verifying, VerifyPolicy::PqOptional).unwrap_err();
    assert!(matches!(err, CoreError::Signature(ref m) if m.contains("no PQ verifying key")));
}

#[test]
fn tampered_pq_signature_detected_under_pq_optional() {
    let (signing, verifying) = hybrid_keys();
    let mut sig = sign_message(b"msg", &signing).unwrap();
    if let Some(bytes) = sig.ml_dsa_sig.as_mut() {
        bytes[0] ^= 0xff;
    }
    let result = verify_message(b"msg", &sig, &verifying, VerifyPolicy::PqOptional);
    assert!(result.is_err());
}

/// A stand-in re-encryption backend: a "ciphertext" is the recipient's key
/// bytes followed by the plaintext.
struct MockBackend;

impl PreBackend for MockBackend {
    fn backend_id(&self) -> BackendId {
        BackendId::Mock
    }
    fn name(&self) -> &'static str {
        "mock"
    }
    fn is_post_quantum(&self) -> bool {
        false
    }
    fn generate_keypair(&self) -> Result<recrypt::proxy::pre::KeyPair, PreError> {
        let key: [u8; 8] = rand::random();
        Ok(recrypt::proxy::pre::KeyPair {
            public: PublicKey::new(BackendId::Mock, key.to_vec()),
            secret: recrypt::proxy::pre::SecretKey::new(BackendId::Mock, key.to_vec()),
        })
    }
    fn public_key_from_secret(
        &self,
        secret: &recrypt::proxy::pre::SecretKey,
    ) -> Result<PublicKey, PreError> {
        Ok(PublicKey::new(BackendId::Mock, secret.as_bytes().to_vec()))
    }
    fn generate_recrypt_key(
        &self,
        from_secret: &recrypt::proxy::pre::SecretKey,
        to_public: &PublicKey,
    ) -> Result<RecryptKey, PreError> {
        Ok(RecryptKey::new(
            BackendId::Mock,
            PublicKey::new(BackendId::Mock, from_secret.as_bytes().to_vec()),
            PublicKey::new(BackendId::Mock, to_public.as_bytes().to_vec()),
            vec![],
        ))
    }
    fn encrypt(&self, recipient: &PublicKey, plaintext: &[u8]) -> Result<Ciphertext, PreError> {
        let mut bytes = recipient.as_bytes().to_vec();
        bytes.extend_from_slice(plaintext);
        Ok(Ciphertext::new(BackendId::Mock, 0, bytes))
    }
    fn decrypt(
        &self,
        secret: &recrypt::proxy::pre::SecretKey,
        ciphertext: &Ciphertext,
    ) -> Result<Vec<u8>, PreError> {
        let key = secret.as_bytes();
        let bytes = ciphertext.as_bytes();
        if bytes.len() >= key.len() && &bytes[..key.len()] == key {
            Ok(bytes[key.len()..].to_vec())
        } else {
            Err(PreError::Decryption("wrong key".to_string()))
        }
    }
    fn recrypt(&self, rk: &RecryptKey, ciphertext: &Ciphertext) -> Result<Ciphertext, PreError> {
        let from = rk.from_public().as_bytes();
        let bytes = ciphertext.as_bytes();
        if bytes.len() < from.len() || &bytes[..from.len()] != from {
            return Err(PreError::Recryption("wrong key".to_string()));
        }
        let mut out = rk.to_public().as_bytes().to_vec();
        out.extend_from_slice(&bytes[from.len()..]);
        Ok(Ciphertext::new(BackendId::Mock, ciphertext.level() + 1, out))
    }
    fn max_plaintext_size(&self) -> usize {
        96
    }
    fn ciphertext_size_estimate(&self, plaintext_size: usize) -> usize {
        plaintext_size + 8
    }
}

#[test]
fn test_hybrid_encrypt_decrypt() {
    let encryptor = recrypt::proxy::hybrid::HybridEncryptor::new(MockBackend);
    let kp = encryptor.backend().generate_keypair().unwrap();
    let plaintext = b"Hello, hybrid encryption!";
    let encrypted = encryptor.encrypt(&kp.public, plaintext).unwrap();
    assert_ne!(&encrypted.ciphertext[..], plaintext);
    let decrypted = encryptor.decrypt(&kp.secret, &encrypted).unwrap();
    assert_eq!(&decrypted[..], plaintext);
}

#[test]
fn test_hybrid_recryption_flow() {
    let encryptor = recrypt::proxy::hybrid::HybridEncryptor::new(MockBackend);
    let alice = encryptor.backend().generate_keypair().unwrap();
    let bob = encryptor.backend().generate_keypair().unwrap();
    let plaintext = b"Secret message for Bob";
    let encrypted_alice = encryptor.encrypt(&alice.public, plaintext).unwrap();
    let rk = encryptor.backend().generate_recrypt_key(&alice.secret, &bob.public).unwrap();
    let encrypted_bob = encryptor.recrypt(&rk, &encrypted_alice).unwrap();
    let decrypted = encryptor.decrypt(&bob.secret, &encrypted_bob).unwrap();
    assert_eq!(&decrypted[..], plaintext);
}

#[test]
fn test_tampered_ciphertext_detected() {
    let encryptor = recrypt::proxy::hybrid::HybridEncryptor::new(MockBackend);
    let kp = encryptor.backend().generate_keypair().unwrap();
    let plaintext = b"Integrity test";
    let mut encrypted = encryptor.encrypt(&kp.public, plaintext).unwrap();
    if !encrypted.ciphertext.is_empty() {
        encrypted.ciphertext[0] ^= 0xFF;
    }
    let result = encryptor.decrypt(&kp.secret, &encrypted);
    assert!(result.is_err());
    assert!(matches!(result.unwrap_err(), CoreError::Decryption(ref m) if m.contains("Bao")));
}

#[test]
fn signed_file_roundtrip() {
    let encryptor = recrypt::proxy::hybrid::HybridEncryptor::new(MockBackend);
    let kp = encryptor.backend().generate_keypair().unwrap();
    let (signing, verifying) = hybrid_keys();
    let encrypted = encryptor.encrypt_and_sign(&kp.public, b"signed", &signing).unwrap();
    assert!(encrypted.signature.is_some());
    let out = encryptor
        .decrypt_and_verify(&kp.secret, &encrypted, &verifying, VerifyPolicy::PqRequired)
        .unwrap();
    assert_eq!(&out[..], b"signed");
    let unsigned = encryptor.encrypt(&kp.public, b"x").unwrap();
    assert!(matches!(
        unsigned.verify_signature(&verifying, VerifyPolicy::PqOptional),
        Err(CoreError::Verification(_))
    ));
}

#[test]
fn plaintext_hash_check_accepts_only_the_recorded_hash() {
    let expected = [7u8; 32];
    assert!(check_plaintext_hash(&expected, &[7u8; 32]).is_ok());
    let mut other = [7u8; 32];
    other[31] = 8;
    assert!(matches!(check_plaintext_hash(&expected, &other), Err(CoreError::IntegrityCheckFailed)));
}

#[test]
fn in_memory_limit_is_the_keystream_length() {
    assert_eq!(MAX_IN_MEMORY_SIZE, ((1u64 << 32) - 1) * 64);
}

fn make_buf(len: usize) -> Vec<u8> {
    let mut buf = Vec::with_capacity(len);
    let mut state: u64 = 0xdeadbeef_cafebabe;
    for _ in 0..len {
        state ^= state << 13;
        state ^= state >> 7;
        state ^= state << 17;
        buf.push(state as u8);
    }
    buf
}

fn streaming_roundtrip(plaintext: Vec<u8>) -> Vec<u8> {
    let encryptor = recrypt::proxy::hybrid::HybridEncryptor::new(MockBackend);
    let kp = encryptor.backend().generate_keypair().unwrap();
    let (result, ciphertext) =
        encryptor.encrypt_streaming_bytes(&kp.public, &plaintext).expect("encrypt_streaming failed");
    encryptor
        .decrypt_streaming_bytes(&kp.secret, &result.wrapped_key, &result.bao_hash, &ciphertext, &result.outboard)
        .expect("decrypt_streaming failed")
}

#[test]
fn test_streaming_roundtrip_100kib() {
    let plaintext = make_buf(100 * 1024);
    let decrypted = streaming_roundtrip(plaintext.clone());
    assert_eq!(decrypted, plaintext);
}

#[test]
fn test_streaming_roundtrip_1mib() {
    let plaintext = make_buf(1024 * 1024);
    let decrypted = streaming_roundtrip(plaintext.clone());
    assert_eq!(decrypted, plaintext);
}

#[test]
fn test_streaming_roundtrip_small_8kib() {
    let plaintext = make_buf(8 * 1024);
    let encryptor = recrypt::proxy::hybrid::HybridEncryptor::new(MockBackend);
    let kp = encryptor.backend().generate_keypair().unwrap();
    let (result, ciphertext) =
        encryptor.encrypt_streaming_bytes(&kp.public, &plaintext).expect("encrypt_streaming failed");
    assert!(result.outboard.is_empty(), "outboard should be empty for files ≤ 16 KiB");
    assert_eq!(result.ciphertext_size, ciphertext.len() as u64);
    let decrypted = encryptor
        .decrypt_streaming_bytes(&kp.secret, &result.wrapped_key, &result.bao_hash, &ciphertext, &result.outboard)
        .expect("decrypt_streaming failed");
    assert_eq!(decrypted, plaintext);
}

#[test]
fn test_streaming_tamper_detection() {
    let plaintext = make_buf(100 * 1024);
    let encryptor = recrypt::proxy::hybrid::HybridEncryptor::new(MockBackend);
    let kp = encryptor.backend().generate_keypair().unwrap();
    let (result, mut ciphertext) =
        encryptor.encrypt_streaming_bytes(&kp.public, &plaintext).expect("encrypt_streaming failed");
    let mid = ciphertext.len() / 2;
    ciphertext[mid] ^= 0xFF;
    let err = encryptor
        .decrypt_streaming_bytes(&kp.secret, &result.wrapped_key, &result.bao_hash, &ciphertext, &result.outboard)
        .expect_err("should have failed with integrity error");
    assert!(matches!(err, CoreError::IntegrityCheckFailed), "expected IntegrityCheckFailed, got: {err:?}");
}

#[test]
fn test_streaming_midstream_tamper_detected_early() {
    let plaintext = make_buf(1024 * 1024);
    let encryptor = recrypt::proxy::hybrid::HybridEncryptor::new(MockBackend);
    let kp = encryptor.backend().generate_keypair().unwrap();
    let (result, mut ciphertext) =
        encryptor.encrypt_streaming_bytes(&kp.public, &plaintext).expect("encrypt_streaming failed");
    ciphertext[500 * 1024] ^= 0xFF;
    let err = encryptor
        .decrypt_streaming_bytes(&kp.secret, &result.wrapped_key, &result.bao_hash, &ciphertext, &result.outboard)
        .expect_err("should have failed with integrity error");
    // No plaintext at all is handed out for a ciphertext the tree rejects.
    assert!(matches!(err, CoreError::IntegrityCheckFailed), "expected IntegrityCheckFailed, got: {err:?}");
}

#[test]
fn test_decrypt_range_happy_path() {
    let plaintext = make_buf(100 * 1024);
    let encryptor = recrypt::proxy::hybrid::HybridEncryptor::new(MockBackend);
    let kp = encryptor.backend().generate_keypair().unwrap();
    let (result, ciphertext) =
        encryptor.encrypt_streaming_bytes(&kp.public, &plaintext).expect("encrypt_streaming failed");
    let out = encryptor
        .decrypt_range_bytes(&kp.secret, &result.wrapped_key, &result.bao_hash, &ciphertext, &result.outboard, 10000, 20000)
        .expect("decrypt_range failed");
    assert_eq!(out, plaintext[10000..20000]);
}

#[test]
fn test_decrypt_range_out_of_bounds() {
    let plaintext = make_buf(100 * 1024);
    let encryptor = recrypt::proxy::hybrid::HybridEncryptor::new(MockBackend);
    let kp = encryptor.backend().generate_keypair().unwrap();
    let (result, ciphertext) =
        encryptor.encrypt_streaming_bytes(&kp.public, &plaintext).expect("encrypt_streaming failed");
    let err = encryptor
        .decrypt_range_bytes(&kp.secret, &result.wrapped_key, &result.bao_hash, &ciphertext, &result.outboard, 90000, 200000)
        .expect_err("should have failed with range out of bounds");
    assert!(matches!(err, CoreError::RangeOutOfBounds { .. }), "expected RangeOutOfBounds, got: {err:?}");
}

#[test]
fn test_decrypt_range_reads_correct_bytes() {
    let plaintext = make_buf(1024 * 1024);
    let encryptor = recrypt::proxy::hybrid::HybridEncryptor::new(MockBackend);
    let kp = encryptor.backend().generate_keypair().unwrap();
    let (result, ciphertext) =
        encryptor.encrypt_streaming_bytes(&kp.public, &plaintext).expect("encrypt_streaming failed");
    let (start, end) = (400 * 1024u64, 400 * 1024u64 + 10 * 1024);
    let out = encryptor
        .decrypt_range_bytes(&kp.secret, &result.wrapped_key, &result.bao_hash, &ciphertext, &result.outboard, start, end)
        .expect("decrypt_range failed");
    assert_eq!(out, plaintext[start as usize..end as usize], "range decode produced wrong bytes");
}

#[test]
fn range_decryption_checks_the_tree_and_clips_empty_ranges() {
    let plaintext = make_buf(40 * 1024);
    let encryptor = recrypt::proxy::hybrid::HybridEncryptor::new(MockBackend);
    let kp = encryptor.backend().generate_keypair().unwrap();
    let (result, mut ciphertext) =
        encryptor.encrypt_streaming_bytes(&kp.public, &plaintext).unwrap();
    // A range that starts at or after its end is empty.
    let out = encryptor
        .decrypt_range_bytes(&kp.secret, &result.wrapped_key, &result.bao_hash, &ciphertext, &result.outboard, 500, 500)
        .unwrap();
    assert!(out.is_empty());
    // A truncated outboard cannot be walked.
    let err = encryptor
        .decrypt_range_bytes(&kp.secret, &result.wrapped_key, &result.bao_hash, &ciphertext, &[], 0, 10)
        .unwrap_err();
    assert!(matches!(err, CoreError::Decryption(_)), "got {err:?}");
    ciphertext[0] ^= 1;
    let err = encryptor
        .decrypt_range_bytes(&kp.secret, &result.wrapped_key, &result.bao_hash, &ciphertext, &result.outboard, 30000, 30010)
        .unwrap_err();
    assert!(matches!(err, CoreError::IntegrityCheckFailed), "got {err:?}");
}

#[test]
fn recrypt_key_decoding_errors_by_kind() {
    // Too short for the header.
    assert!(matches!(RecryptKey::from_bytes(&[255, 0, 0]), Err(PreError::Deserialization(_))));
    // Unknown backend tag.
    assert!(matches!(RecryptKey::from_bytes(&[7, 0, 0, 0, 0, 0, 0, 0, 0]), Err(PreError::InvalidKey(_))));
    // The first public key runs past the end.
    assert!(matches!(
        RecryptKey::from_bytes(&[255, 9, 0, 0, 0, 255, 1, 2, 3]),
        Err(PreError::Deserialization(_))
    ));
    // An empty first public key.
    assert!(matches!(
        RecryptKey::from_bytes(&[255, 0, 0, 0, 0, 0, 0, 0, 0]),
        Err(PreError::InvalidKey(_))
    ));
    // A first public key with an unknown backend tag.
    assert!(matches!(
        RecryptKey::from_bytes(&[255, 1, 0, 0, 0, 9, 0, 0, 0, 0]),
        Err(PreError::InvalidKey(_))
    ));
    // The second length is missing.
    assert!(matches!(
        RecryptKey::from_bytes(&[255, 4, 0, 0, 0, 255, 1, 2, 3, 0, 0]),
        Err(PreError::Deserialization(_))
    ));
}
