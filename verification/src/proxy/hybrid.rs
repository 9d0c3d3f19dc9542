//! Hybrid encryption: the bulk data under XChaCha20, the key material
//! wrapped by proxy re-encryption, integrity by BLAKE3 hashes.

use vstd::prelude::*;

use crate::foreign::ed25519::ed25519_signature_of;
use crate::foreign::hash::{blake3_digest, blake3_hash};
use crate::foreign::random::random_bytes;
use crate::foreign::text::{vec_to_array24, vec_to_array32};
use crate::foreign::xchacha::{xchacha20_apply, xchacha20_xor};
use crate::proxy::error::{CoreError, CoreResult, PreError};
use crate::proxy::keymaterial::{key_material_bytes, KeyMaterial};
use crate::proxy::pre::{ciphertext_bytes, Ciphertext, PreBackend, PublicKey, RecryptKey, SecretKey};
use crate::proxy::sign::{
    sign_message, signature_accepted, verify_message, MultiSig, SigningKeys, VerifyPolicy,
    VerifyingKeys,
};
use crate::seqs::{append_bytes, bytes_equal, to_vec};

verus! {

broadcast use vstd::std_specs::vec::group_vec_axioms;

/// Largest plaintext the streaming encryption accepts (1 TiB).
pub const MAX_ENCRYPT_FILE_SIZE: u64 = 1099511627776;

/// Largest plaintext the in-memory encryption handles: the XChaCha20
/// keystream from the start, 2^32 - 1 blocks of 64 bytes.
pub const MAX_IN_MEMORY_SIZE: u64 = 274877906880;

/// An encrypted file with verifiable integrity.
#[derive(Clone, Debug)]
pub struct EncryptedFile {
    /// The re-encrypted key-material bundle.
    pub wrapped_key: Ciphertext,
    /// BLAKE3 hash of the ciphertext.
    pub bao_hash: [u8; 32],
    /// XChaCha20-encrypted data (integrity comes from the hashes).
    pub ciphertext: Vec<u8>,
    /// Signature over the wrapped key and the ciphertext hash, if signed.
    pub signature: Option<MultiSig>,
}

/// The bytes a file's signature covers: the encoded wrapped key, then the
/// ciphertext hash.
pub open spec fn signature_payload_of(f: EncryptedFile) -> Seq<u8> {
    ciphertext_bytes(f.wrapped_key@) + f.bao_hash@
}

/// A multi-signature made with the keys over `payload`: the Ed25519 part is
/// the key's signature of the payload, and the ML-DSA-87 part is present
/// exactly when a post-quantum key is.
pub open spec fn signed_by(s: MultiSig, keys: &SigningKeys, payload: Seq<u8>) -> bool {
    &&& s.ed25519_sig@ == ed25519_signature_of(keys.ed25519@, payload)
    &&& (s.ml_dsa_sig is Some <==> keys.ml_dsa is Some)
}

impl EncryptedFile {
    /// The bytes the signature covers.
    pub fn signature_payload(&self) -> (r: Vec<u8>)
        ensures
            r@ == signature_payload_of(*self),
    {
        let mut payload = self.wrapped_key.to_bytes();
        append_bytes(&mut payload, self.bao_hash.as_slice());
        payload
    }

    /// Sign the file.
    pub fn sign(&mut self, keys: &SigningKeys) -> (r: CoreResult<()>)
        ensures
            final(self).wrapped_key == old(self).wrapped_key,
            final(self).bao_hash == old(self).bao_hash,
            final(self).ciphertext@ == old(self).ciphertext@,
            match r {
                Ok(()) => final(self).signature matches Some(s) && signed_by(
                    s,
                    keys,
                    signature_payload_of(*old(self)),
                ),
                Err(e) => keys.ml_dsa is Some && e is Signature && final(self).signature == old(
                    self,
                ).signature,
            },
    {
        let payload = self.signature_payload();
        let sig = match sign_message(payload.as_slice(), keys) {
            Ok(s) => s,
            Err(e) => return Err(e),
        };
        self.signature = Some(sig);
        Ok(())
    }

    /// Verify the signature under `policy`; a file without signature is
    /// rejected.
    pub fn verify_signature(&self, pks: &VerifyingKeys, policy: VerifyPolicy) -> (r: CoreResult<
        bool,
    >)
        ensures
            match r {
                Ok(b) => b && (self.signature matches Some(s) && signature_accepted(
                    signature_payload_of(*self),
                    s,
                    *pks,
                    policy,
                )),
                Err(e) => !(self.signature matches Some(s) && signature_accepted(
                    signature_payload_of(*self),
                    s,
                    *pks,
                    policy,
                )) && (e is Verification || e is Signature),
            },
    {
        match &self.signature {
            Some(sig) => {
                let payload = self.signature_payload();
                verify_message(payload.as_slice(), sig, pks, policy)
            },
            None => Err(CoreError::Verification("No signature present".to_owned())),
        }
    }
}

/// What decryption gives for a ciphertext, its recorded hash and the
/// key-material bytes the re-encryption layer returned: the ciphertext must
/// match its hash, the key material must decode, and the decrypted data must
/// have the recorded size and hash.
pub open spec fn opened(ciphertext: Seq<u8>, bao_hash: Seq<u8>, km: Seq<u8>, plaintext: Seq<u8>) -> bool {
    &&& blake3_digest(ciphertext) == bao_hash
    &&& exists|k: KeyMaterial|
        #![trigger key_material_bytes(k)]
        key_material_bytes(k) == km && plaintext == xchacha20_xor(k.symmetric_key@, k.nonce@, ciphertext)
            && plaintext.len() == k.plaintext_size && blake3_digest(plaintext) == k.plaintext_hash@
}

/// The bytes encode key material (of a representable size) under which the
/// ciphertext decrypts to a plaintext of the recorded size and hash.
pub open spec fn key_material_opens(ciphertext: Seq<u8>, km: Seq<u8>) -> bool {
    exists|k: KeyMaterial|
        #![trigger key_material_bytes(k)]
        key_material_bytes(k) == km && k.plaintext_size <= KeyMaterial::MAX_PLAINTEXT_SIZE
            && xchacha20_xor(k.symmetric_key@, k.nonce@, ciphertext).len() == k.plaintext_size
            && blake3_digest(xchacha20_xor(k.symmetric_key@, k.nonce@, ciphertext))
            == k.plaintext_hash@
}

/// A decryption refusal is justified: the ciphertext does not match its hash,
/// or the backend failed, or the key material the backend gave back does not
/// open the ciphertext.
pub open spec fn decrypt_refusal_justified<B: PreBackend>(
    backend: B,
    secret: SecretKey,
    file: EncryptedFile,
    r: CoreResult<Vec<u8>>,
) -> bool {
    r matches Err(e) ==> (e is PreBackend || blake3_digest(file.ciphertext@) != file.bao_hash@
        || exists|km: Seq<u8>|
        #[trigger] backend.decrypts(secret, file.wrapped_key, km) && !key_material_opens(
            file.ciphertext@,
            km,
        ))
}

/// Some key material the re-encryption layer may return opens the file to
/// `plaintext`.
pub open spec fn decrypts_to(file: EncryptedFile, plaintext: Seq<u8>) -> bool {
    exists|km: Seq<u8>| #[trigger] opened(file.ciphertext@, file.bao_hash@, km, plaintext)
}

fn random_key() -> (r: [u8; 32]) {
    let v = random_bytes(32);
    match vec_to_array32(v) {
        Some(a) => a,
        None => [0u8; 32],
    }
}

fn random_nonce() -> (r: [u8; 24]) {
    let v = random_bytes(24);
    match vec_to_array24(v) {
        Some(a) => a,
        None => [0u8; 24],
    }
}

/// The final check of a streamed decryption: the hash of the plaintext
/// written must be the one the key material records.
pub fn check_plaintext_hash(expected: &[u8; 32], computed: &[u8; 32]) -> (r: CoreResult<()>)
    ensures
        match r {
            Ok(()) => expected@ == computed@,
            Err(e) => expected@ != computed@ && e is IntegrityCheckFailed,
        },
{
    if bytes_equal(expected.as_slice(), computed.as_slice()) {
        Ok(())
    } else {
        Err(CoreError::IntegrityCheckFailed)
    }
}

/// Hybrid encryption over a proxy re-encryption backend.
pub struct HybridEncryptor<B: PreBackend> {
    backend: B,
}

impl<B: PreBackend> HybridEncryptor<B> {
    pub fn new(backend: B) -> (r: Self)
        ensures
            r.backend_spec() == backend,
    {
        Self { backend }
    }

    /// The backend, in specifications.
    pub closed spec fn backend_spec(&self) -> B {
        self.backend
    }

    /// Encrypt `plaintext` for `recipient` under a fresh random key and nonce:
    /// the data is XChaCha20-encrypted, the key material (key, nonce,
    /// plaintext hash and size) is encrypted by the backend, and the
    /// ciphertext's hash is recorded.
    pub fn encrypt(&self, recipient: &PublicKey, plaintext: &[u8]) -> (r: CoreResult<EncryptedFile>)
        requires
            plaintext@.len() <= MAX_IN_MEMORY_SIZE,
        ensures
            r matches Ok(f) ==> {
                &&& f.bao_hash@ == blake3_digest(f.ciphertext@)
                &&& f.signature is None
                &&& exists|k: KeyMaterial|
                    #![trigger key_material_bytes(k)]
                    k.plaintext_hash@ == blake3_digest(plaintext@) && k.plaintext_size
                        == plaintext@.len() && f.ciphertext@ == xchacha20_xor(
                        k.symmetric_key@,
                        k.nonce@,
                        plaintext@,
                    ) && xchacha20_xor(k.symmetric_key@, k.nonce@, f.ciphertext@) == plaintext@
                        && self.backend_spec().encrypts(*recipient, key_material_bytes(k), f.wrapped_key)
            },
            r matches Err(e) ==> e is PreBackend,
    {
        let sym_key = random_key();
        let nonce = random_nonce();
        let plaintext_hash = blake3_hash(plaintext);
        let plaintext_size = plaintext.len() as u64;
        let ciphertext = xchacha20_apply(&sym_key, &nonce, plaintext);
        let bao_hash = blake3_hash(ciphertext.as_slice());
        let key_material = KeyMaterial { symmetric_key: sym_key, nonce, plaintext_hash, plaintext_size };
        let km_bytes = match key_material.to_bytes() {
            Ok(b) => b,
            Err(e) => {
                return Err(CoreError::PreBackend(e));
            },
        };
        let wrapped_key = match self.backend.encrypt(recipient, km_bytes.as_slice()) {
            Ok(c) => c,
            Err(e) => {
                return Err(CoreError::PreBackend(e));
            },
        };
        let f = EncryptedFile { wrapped_key, bao_hash, ciphertext, signature: None };
        assert(key_material_bytes(key_material) == key_material_bytes(key_material));
        Ok(f)
    }

    /// Decrypt and check integrity: the ciphertext must match its hash, the
    /// unwrapped key material must decode, and the result must have the
    /// recorded size and hash.
    pub fn decrypt(&self, secret: &SecretKey, file: &EncryptedFile) -> (r: CoreResult<Vec<u8>>)
        requires
            file.ciphertext@.len() <= MAX_IN_MEMORY_SIZE,
        ensures
            r matches Ok(p) ==> decrypts_to(*file, p@) && exists|km: Seq<u8>|
                #[trigger] self.backend_spec().decrypts(*secret, file.wrapped_key, km) && opened(
                    file.ciphertext@,
                    file.bao_hash@,
                    km,
                    p@,
                ),
            r matches Err(e) ==> e is Decryption || e is PreBackend,
            blake3_digest(file.ciphertext@) != file.bao_hash@ ==> (r matches Err(e) && e is Decryption),
            decrypt_refusal_justified(self.backend_spec(), *secret, *file, r),
    {
        let computed = blake3_hash(file.ciphertext.as_slice());
        if !bytes_equal(computed.as_slice(), file.bao_hash.as_slice()) {
            return Err(CoreError::Decryption("Bao hash mismatch: ciphertext corrupted".to_owned()));
        }
        let km_bytes = match self.backend.decrypt(secret, &file.wrapped_key) {
            Ok(b) => b,
            Err(e) => {
                return Err(CoreError::PreBackend(e));
            },
        };
        let ghost kmv = km_bytes@;
        proof {
            assert(self.backend_spec().decrypts(*secret, file.wrapped_key, kmv));
        }
        let key_material = match KeyMaterial::from_bytes(km_bytes.as_slice()) {
            Ok(k) => k,
            Err(_) => {
                proof {
                    lemma_no_key_material(file.ciphertext@, kmv);
                }
                return Err(CoreError::Decryption("invalid key material".to_owned()));
            },
        };
        let plaintext = xchacha20_apply(
            &key_material.symmetric_key,
            &key_material.nonce,
            file.ciphertext.as_slice(),
        );
        if plaintext.len() as u64 != key_material.plaintext_size {
            proof {
                lemma_opens_through(file.ciphertext@, key_material);
            }
            return Err(CoreError::Decryption("Plaintext size mismatch".to_owned()));
        }
        let computed_hash = blake3_hash(plaintext.as_slice());
        if !bytes_equal(computed_hash.as_slice(), key_material.plaintext_hash.as_slice()) {
            proof {
                lemma_opens_through(file.ciphertext@, key_material);
            }
            return Err(CoreError::Decryption("Plaintext hash mismatch".to_owned()));
        }
        let ghost kmb = km_bytes@;
        assert(self.backend_spec().decrypts(*secret, file.wrapped_key, kmb));
        assert(opened(file.ciphertext@, file.bao_hash@, kmb, plaintext@));
        assert(decrypts_to(*file, plaintext@));
        Ok(plaintext)
    }

    /// Unwrap the key-material bundle of a wrapped key: the backend decrypts
    /// it and the bundle must decode.
    pub fn unwrap_key_material(&self, secret: &SecretKey, wrapped_key: &Ciphertext) -> (r:
        CoreResult<KeyMaterial>)
        ensures
            match r {
                Ok(k) => k.plaintext_size <= KeyMaterial::MAX_PLAINTEXT_SIZE && exists|p: Seq<u8>|
                    #[trigger] self.backend_spec().decrypts(*secret, *wrapped_key, p) && p
                        == key_material_bytes(k),
                Err(e) => e is PreBackend || (e is Decryption && exists|p: Seq<u8>|
                    #[trigger] self.backend_spec().decrypts(*secret, *wrapped_key, p) && !(p.len()
                        == 96 && p[0] == 1)),
            },
    {
        let km_bytes = match self.backend.decrypt(secret, wrapped_key) {
            Ok(b) => b,
            Err(e) => {
                return Err(CoreError::PreBackend(e));
            },
        };
        assert(self.backend_spec().decrypts(*secret, *wrapped_key, km_bytes@));
        match KeyMaterial::from_bytes(km_bytes.as_slice()) {
            Ok(k) => Ok(k),
            Err(_) => Err(CoreError::Decryption("invalid key material".to_owned())),
        }
    }

    /// Re-encrypt a file for a new recipient: only the wrapped key changes.
    pub fn recrypt(&self, recrypt_key: &RecryptKey, file: &EncryptedFile) -> (r: CoreResult<
        EncryptedFile,
    >)
        ensures
            r matches Ok(f) ==> f.bao_hash == file.bao_hash && f.ciphertext@ == file.ciphertext@
                && f.signature is None && self.backend_spec().recrypts(
                *recrypt_key,
                file.wrapped_key,
                f.wrapped_key,
            ),
            r matches Err(e) ==> e is PreBackend,
    {
        let new_wrapped = match self.backend.recrypt(recrypt_key, &file.wrapped_key) {
            Ok(c) => c,
            Err(e) => {
                return Err(CoreError::PreBackend(e));
            },
        };
        Ok(
            EncryptedFile {
                wrapped_key: new_wrapped,
                bao_hash: file.bao_hash,
                ciphertext: to_vec(file.ciphertext.as_slice()),
                signature: None,
            },
        )
    }

    /// Re-encrypt only the wrapped key for a new recipient.
    pub fn recrypt_wrapped_key(&self, recrypt_key: &RecryptKey, wrapped_key: &Ciphertext) -> (r:
        CoreResult<Ciphertext>)
        ensures
            match r {
                Ok(c) => self.backend_spec().recrypts(*recrypt_key, *wrapped_key, c),
                Err(e) => e is PreBackend,
            },
    {
        match self.backend.recrypt(recrypt_key, wrapped_key) {
            Ok(c) => Ok(c),
            Err(e) => Err(CoreError::PreBackend(e)),
        }
    }

    /// Encrypt and sign.
    pub fn encrypt_and_sign(
        &self,
        recipient: &PublicKey,
        plaintext: &[u8],
        signing_keys: &SigningKeys,
    ) -> (r: CoreResult<EncryptedFile>)
        requires
            plaintext@.len() <= MAX_IN_MEMORY_SIZE,
        ensures
            match r {
                Ok(f) => {
                    &&& f.bao_hash@ == blake3_digest(f.ciphertext@)
                    &&& f.signature matches Some(s) && signed_by(
                        s,
                        signing_keys,
                        signature_payload_of(f),
                    )
                    &&& exists|k: KeyMaterial|
                        #![trigger key_material_bytes(k)]
                        k.plaintext_hash@ == blake3_digest(plaintext@) && k.plaintext_size
                            == plaintext@.len() && f.ciphertext@ == xchacha20_xor(
                            k.symmetric_key@,
                            k.nonce@,
                            plaintext@,
                        ) && xchacha20_xor(k.symmetric_key@, k.nonce@, f.ciphertext@) == plaintext@
                            && self.backend_spec().encrypts(
                            *recipient,
                            key_material_bytes(k),
                            f.wrapped_key,
                        )
                },
                Err(e) => e is PreBackend || (signing_keys.ml_dsa is Some && e is Signature),
            },
    {
        let mut file = match self.encrypt(recipient, plaintext) {
            Ok(f) => f,
            Err(e) => return Err(e),
        };
        let ghost before = file;
        match file.sign(signing_keys) {
            Ok(()) => {},
            Err(e) => return Err(e),
        }
        assert(signature_payload_of(file) == signature_payload_of(before));
        Ok(file)
    }

    /// Verify the signature under `policy`, then decrypt.
    pub fn decrypt_and_verify(
        &self,
        secret: &SecretKey,
        file: &EncryptedFile,
        verifying_keys: &VerifyingKeys,
        policy: VerifyPolicy,
    ) -> (r: CoreResult<Vec<u8>>)
        requires
            file.ciphertext@.len() <= MAX_IN_MEMORY_SIZE,
        ensures
            r matches Ok(p) ==> (file.signature matches Some(s) && signature_accepted(
                signature_payload_of(*file),
                s,
                *verifying_keys,
                policy,
            )) && decrypts_to(*file, p@) && exists|km: Seq<u8>|
                #[trigger] self.backend_spec().decrypts(*secret, file.wrapped_key, km) && opened(
                    file.ciphertext@,
                    file.bao_hash@,
                    km,
                    p@,
                ),
            !(file.signature matches Some(s) && signature_accepted(
                signature_payload_of(*file),
                s,
                *verifying_keys,
                policy,
            )) ==> (r matches Err(e) && (e is Verification || e is Signature)),
            r matches Err(e) ==> e is Verification || e is Signature || e is Decryption
                || e is PreBackend,
            blake3_digest(file.ciphertext@) != file.bao_hash@ ==> r is Err,
            (file.signature matches Some(s) && signature_accepted(
                signature_payload_of(*file),
                s,
                *verifying_keys,
                policy,
            )) ==> decrypt_refusal_justified(self.backend_spec(), *secret, *file, r),
    {
        match file.verify_signature(verifying_keys, policy) {
            Ok(_) => {},
            Err(e) => return Err(e),
        }
        self.decrypt(secret, file)
    }

    /// The backend.
    pub fn backend(&self) -> (r: &B)
        ensures
            *r == self.backend_spec(),
    {
        &self.backend
    }
}

/// Ciphertexts up to this size fit one chunk group of the verification tree
/// and need no outboard.
pub const SINGLE_CHUNK_GROUP_THRESHOLD: usize = 16384;

/// Refuse a plaintext larger than `MAX_ENCRYPT_FILE_SIZE`.
pub fn check_file_size(size: u64) -> (r: CoreResult<()>)
    ensures
        match r {
            Ok(()) => size <= MAX_ENCRYPT_FILE_SIZE,
            Err(e) => size > MAX_ENCRYPT_FILE_SIZE && e == (CoreError::FileTooLarge {
                size,
                max: MAX_ENCRYPT_FILE_SIZE,
            }),
        },
{
    if size > MAX_ENCRYPT_FILE_SIZE {
        Err(CoreError::FileTooLarge { size, max: MAX_ENCRYPT_FILE_SIZE })
    } else {
        Ok(())
    }
}

/// Refuse a requested range that ends past the plaintext.
pub fn check_range(range_end: u64, plaintext_size: u64) -> (r: CoreResult<()>)
    ensures
        match r {
            Ok(()) => range_end <= plaintext_size,
            Err(e) => range_end > plaintext_size && e == (CoreError::RangeOutOfBounds {
                plaintext_size,
            }),
        },
{
    if range_end > plaintext_size {
        Err(CoreError::RangeOutOfBounds { plaintext_size })
    } else {
        Ok(())
    }
}

/// Whether the outboard of a ciphertext of this length is kept: only a
/// ciphertext longer than one chunk group has one.
pub fn outboard_needed(ciphertext_len: usize) -> (r: bool)
    ensures
        r == (ciphertext_len > SINGLE_CHUNK_GROUP_THRESHOLD),
{
    ciphertext_len > SINGLE_CHUNK_GROUP_THRESHOLD
}

/// Bytes that are not 96 long with version 1 encode no key material.
proof fn lemma_no_key_material(ciphertext: Seq<u8>, km: Seq<u8>)
    requires
        !(km.len() == 96 && km[0] == 1),
    ensures
        !key_material_opens(ciphertext, km),
{
    if key_material_opens(ciphertext, km) {
        let k = choose|k: KeyMaterial|
            #![trigger key_material_bytes(k)]
            key_material_bytes(k) == km && k.plaintext_size <= KeyMaterial::MAX_PLAINTEXT_SIZE
                && xchacha20_xor(k.symmetric_key@, k.nonce@, ciphertext).len() == k.plaintext_size
                && blake3_digest(xchacha20_xor(k.symmetric_key@, k.nonce@, ciphertext))
                == k.plaintext_hash@;
        crate::proxy::keymaterial::lemma_key_material_len(k);
        assert(key_material_bytes(k)[0] == 1);
    }
}

/// The encoding of key material opens the ciphertext exactly when that key
/// material does.
proof fn lemma_opens_through(ciphertext: Seq<u8>, k: KeyMaterial)
    requires
        k.plaintext_size <= KeyMaterial::MAX_PLAINTEXT_SIZE,
    ensures
        key_material_opens(ciphertext, key_material_bytes(k)) <==> (xchacha20_xor(
            k.symmetric_key@,
            k.nonce@,
            ciphertext,
        ).len() == k.plaintext_size && blake3_digest(
            xchacha20_xor(k.symmetric_key@, k.nonce@, ciphertext),
        ) == k.plaintext_hash@),
{
    if key_material_opens(ciphertext, key_material_bytes(k)) {
        let j = choose|j: KeyMaterial|
            #![trigger key_material_bytes(j)]
            key_material_bytes(j) == key_material_bytes(k) && j.plaintext_size
                <= KeyMaterial::MAX_PLAINTEXT_SIZE && xchacha20_xor(
                j.symmetric_key@,
                j.nonce@,
                ciphertext,
            ).len() == j.plaintext_size && blake3_digest(
                xchacha20_xor(j.symmetric_key@, j.nonce@, ciphertext),
            ) == j.plaintext_hash@;
        crate::proxy::keymaterial::law_key_material_roundtrip(j, k);
    }
}

/// Decryption is complete: a file whose ciphertext matches its hash, for a
/// secret key under which every key material the backend can give back
/// opens the ciphertext, decrypts; only the backend itself can refuse.
pub proof fn law_decrypt_complete<B: PreBackend>(
    backend: B,
    secret: SecretKey,
    file: EncryptedFile,
    r: CoreResult<Vec<u8>>,
)
    requires
        decrypt_refusal_justified(backend, secret, file, r),
        blake3_digest(file.ciphertext@) == file.bao_hash@,
        forall|km: Seq<u8>|
            #[trigger] backend.decrypts(secret, file.wrapped_key, km) ==> key_material_opens(
                file.ciphertext@,
                km,
            ),
    ensures
        r is Ok || r matches Err(CoreError::PreBackend(_)),
{
}

/// Decrypting what `encrypt` produced gives the plaintext back: if the
/// backend's decryption of the wrapped key can only give back the key
/// material that was encrypted, decryption returns exactly the plaintext
/// (or the backend fails).
pub proof fn law_decrypt_of_encrypt<B: PreBackend>(
    backend: B,
    secret: SecretKey,
    file: EncryptedFile,
    k: KeyMaterial,
    plaintext: Seq<u8>,
    r: CoreResult<Vec<u8>>,
)
    requires
        plaintext.len() <= MAX_IN_MEMORY_SIZE,
        file.bao_hash@ == blake3_digest(file.ciphertext@),
        k.plaintext_hash@ == blake3_digest(plaintext),
        k.plaintext_size == plaintext.len(),
        file.ciphertext@ == xchacha20_xor(k.symmetric_key@, k.nonce@, plaintext),
        xchacha20_xor(k.symmetric_key@, k.nonce@, file.ciphertext@) == plaintext,
        forall|km: Seq<u8>|
            #[trigger] backend.decrypts(secret, file.wrapped_key, km) ==> km == key_material_bytes(k),
        r matches Ok(p) ==> exists|km: Seq<u8>|
            #[trigger] backend.decrypts(secret, file.wrapped_key, km) && opened(
                file.ciphertext@,
                file.bao_hash@,
                km,
                p@,
            ),
        decrypt_refusal_justified(backend, secret, file, r),
    ensures
        r matches Ok(p) ==> p@ == plaintext,
        r is Ok || r matches Err(CoreError::PreBackend(_)),
{
    assert forall|km: Seq<u8>| #[trigger] backend.decrypts(secret, file.wrapped_key, km) implies key_material_opens(
        file.ciphertext@,
        km,
    ) by {
        assert(key_material_bytes(k) == km);
    }
    if r is Ok {
        let p = r->Ok_0;
        let km = choose|km: Seq<u8>|
            #[trigger] backend.decrypts(secret, file.wrapped_key, km) && opened(
                file.ciphertext@,
                file.bao_hash@,
                km,
                p@,
            );
        law_opened_matches_commitment(file.ciphertext@, file.bao_hash@, k, p@);
    }
}

/// Decryption undoes encryption: the ciphertext of a plaintext under a key
/// and nonce, with its hash and the encoding of the key material, opens to
/// the plaintext.
pub proof fn law_hybrid_roundtrip(k: KeyMaterial, plaintext: Seq<u8>, ciphertext: Seq<u8>)
    requires
        k.plaintext_hash@ == blake3_digest(plaintext),
        k.plaintext_size == plaintext.len(),
        k.plaintext_size <= KeyMaterial::MAX_PLAINTEXT_SIZE,
        ciphertext == xchacha20_xor(k.symmetric_key@, k.nonce@, plaintext),
        xchacha20_xor(k.symmetric_key@, k.nonce@, ciphertext) == plaintext,
    ensures
        opened(ciphertext, blake3_digest(ciphertext), key_material_bytes(k), plaintext),
{
}

/// Only the plaintext the key material commits to can come out of
/// decryption: the opened bytes are the ciphertext decrypted under the key
/// and nonce of the key material, with the recorded hash.
pub proof fn law_opened_matches_commitment(
    ciphertext: Seq<u8>,
    bao_hash: Seq<u8>,
    k: KeyMaterial,
    plaintext: Seq<u8>,
)
    requires
        opened(ciphertext, bao_hash, key_material_bytes(k), plaintext),
    ensures
        blake3_digest(plaintext) == k.plaintext_hash@,
        plaintext == xchacha20_xor(k.symmetric_key@, k.nonce@, ciphertext),
        blake3_digest(ciphertext) == bao_hash,
{
    let j = choose|j: KeyMaterial|
        #![trigger key_material_bytes(j)]
        key_material_bytes(j) == key_material_bytes(k) && plaintext == xchacha20_xor(
            j.symmetric_key@,
            j.nonce@,
            ciphertext,
        ) && plaintext.len() == j.plaintext_size && blake3_digest(plaintext) == j.plaintext_hash@;
    let x = key_material_bytes(j);
    let y = key_material_bytes(k);
    assert(j.symmetric_key@ =~= x.subrange(1, 33));
    assert(k.symmetric_key@ =~= y.subrange(1, 33));
    assert(j.nonce@ =~= x.subrange(33, 57));
    assert(k.nonce@ =~= y.subrange(33, 57));
    assert(j.plaintext_hash@ =~= x.subrange(57, 89));
    assert(k.plaintext_hash@ =~= y.subrange(57, 89));
}

} // verus!
