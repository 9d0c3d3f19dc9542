//! Proxy re-encryption: backend identifiers, tagged keys and ciphertexts,
//! the backend trait, and the lattice backend.

use vstd::prelude::*;

use crate::auth::cbor::str_equal;
use crate::foreign::text::{unicode_lowercase, to_lowercase};
use crate::proxy::error::{PreError, PreResult};
use crate::seqs::{append_bytes, copy_range, le_bytes, le_value, push_le, to_vec};

verus! {

broadcast use vstd::std_specs::vec::group_vec_axioms;

/// Which backend produced a ciphertext or key.
#[derive(Clone, Copy, Debug, PartialEq, Eq, Structural, Hash)]
pub enum BackendId {
    /// OpenFHE BFV lattice re-encryption (post-quantum).
    Lattice,
    /// Pairing-based re-encryption (classical; reserved).
    EcPairing,
    /// secp256k1 re-encryption (classical; reserved).
    EcSecp256k1,
    /// Mock backend for testing.
    Mock,
}

/// The wire byte of a backend.
pub open spec fn backend_byte(b: BackendId) -> u8 {
    match b {
        BackendId::Lattice => 0,
        BackendId::EcPairing => 1,
        BackendId::EcSecp256k1 => 2,
        BackendId::Mock => 255,
    }
}

/// The backend a wire byte names, if any.
pub open spec fn backend_of_byte(v: u8) -> Option<BackendId> {
    if v == 0 {
        Some(BackendId::Lattice)
    } else if v == 1 {
        Some(BackendId::EcPairing)
    } else if v == 2 {
        Some(BackendId::EcSecp256k1)
    } else if v == 255 {
        Some(BackendId::Mock)
    } else {
        None
    }
}

/// The display name of a backend.
pub open spec fn backend_name(b: BackendId) -> Seq<char> {
    match b {
        BackendId::Lattice => "lattice"@,
        BackendId::EcPairing => "ec-pairing"@,
        BackendId::EcSecp256k1 => "ec-secp256k1"@,
        BackendId::Mock => "mock"@,
    }
}

/// The backend a lower-cased name or alias denotes.
pub open spec fn backend_of_name(s: Seq<char>) -> Option<BackendId> {
    if s == "lattice"@ || s == "pq"@ || s == "post-quantum"@ || s == "openfhe"@ {
        Some(BackendId::Lattice)
    } else if s == "ec-pairing"@ || s == "ecpairing"@ || s == "pairing"@ {
        Some(BackendId::EcPairing)
    } else if s == "ec-secp256k1"@ || s == "secp256k1"@ || s == "umbral"@ {
        Some(BackendId::EcSecp256k1)
    } else if s == "mock"@ || s == "test"@ {
        Some(BackendId::Mock)
    } else {
        None
    }
}

impl BackendId {
    /// The wire byte of this backend.
    pub fn to_u8(self) -> (r: u8)
        ensures
            r == backend_byte(self),
    {
        match self {
            BackendId::Lattice => 0,
            BackendId::EcPairing => 1,
            BackendId::EcSecp256k1 => 2,
            BackendId::Mock => 255,
        }
    }

    /// The backend a wire byte names.
    pub fn try_from_u8(value: u8) -> (r: PreResult<Self>)
        ensures
            match r {
                Ok(b) => backend_of_byte(value) == Some(b),
                Err(e) => backend_of_byte(value) is None && e is InvalidKey,
            },
    {
        match value {
            0 => Ok(BackendId::Lattice),
            1 => Ok(BackendId::EcPairing),
            2 => Ok(BackendId::EcSecp256k1),
            255 => Ok(BackendId::Mock),
            _ => Err(PreError::InvalidKey("unknown backend id".to_owned())),
        }
    }

    /// The display name of this backend.
    pub fn to_string(&self) -> (r: String)
        ensures
            r@ == backend_name(*self),
    {
        match self {
            BackendId::Lattice => "lattice".to_owned(),
            BackendId::EcPairing => "ec-pairing".to_owned(),
            BackendId::EcSecp256k1 => "ec-secp256k1".to_owned(),
            BackendId::Mock => "mock".to_owned(),
        }
    }

    /// Parse a backend name or alias, ignoring case.
    pub fn parse(s: &str) -> (r: PreResult<Self>)
        ensures
            match r {
                Ok(b) => backend_of_name(unicode_lowercase(s@)) == Some(b),
                Err(e) => backend_of_name(unicode_lowercase(s@)) is None && e is InvalidKey,
            },
    {
        let lower = to_lowercase(s);
        let t = lower.as_str();
        if str_equal(t, "lattice") || str_equal(t, "pq") || str_equal(t, "post-quantum")
            || str_equal(t, "openfhe") {
            Ok(BackendId::Lattice)
        } else if str_equal(t, "ec-pairing") || str_equal(t, "ecpairing") || str_equal(t, "pairing") {
            Ok(BackendId::EcPairing)
        } else if str_equal(t, "ec-secp256k1") || str_equal(t, "secp256k1") || str_equal(
            t,
            "umbral",
        ) {
            Ok(BackendId::EcSecp256k1)
        } else if str_equal(t, "mock") || str_equal(t, "test") {
            Ok(BackendId::Mock)
        } else {
            Err(PreError::InvalidKey("unknown backend".to_owned()))
        }
    }
}

impl core::str::FromStr for BackendId {
    type Err = PreError;

    fn from_str(s: &str) -> (r: Result<Self, PreError>)
        ensures
            match r {
                Ok(b) => backend_of_name(unicode_lowercase(s@)) == Some(b),
                Err(e) => backend_of_name(unicode_lowercase(s@)) is None && e is InvalidKey,
            },
    {
        Self::parse(s)
    }
}

/// Reading back the wire byte of a backend gives the backend.
pub proof fn law_backend_byte_roundtrip(b: BackendId)
    ensures
        backend_of_byte(backend_byte(b)) == Some(b),
{
}

// ---------------------------------------------------------------------------
// Keys and ciphertexts
// ---------------------------------------------------------------------------

/// A re-encryption public key of some backend.
#[derive(Clone, Debug)]
pub struct PublicKey {
    pub(crate) backend: BackendId,
    pub(crate) bytes: Vec<u8>,
}

impl View for PublicKey {
    type V = (BackendId, Seq<u8>);

    closed spec fn view(&self) -> (BackendId, Seq<u8>) {
        (self.backend, self.bytes@)
    }
}

/// The tagged encoding of a public key: the backend byte, then the key.
pub open spec fn public_key_bytes(k: (BackendId, Seq<u8>)) -> Seq<u8> {
    seq![backend_byte(k.0)] + k.1
}

/// The public key a byte string encodes, if any: a known backend byte
/// followed by the key bytes.
pub open spec fn public_key_of(s: Seq<u8>) -> Option<(BackendId, Seq<u8>)> {
    if s.len() == 0 {
        None
    } else {
        match backend_of_byte(s[0]) {
            Some(b) => Some((b, s.drop_first())),
            None => None,
        }
    }
}

impl PublicKey {
    pub fn new(backend: BackendId, bytes: Vec<u8>) -> (r: Self)
        ensures
            r@ == (backend, bytes@),
    {
        Self { backend, bytes }
    }

    pub fn backend(&self) -> (r: BackendId)
        ensures
            r == self@.0,
    {
        self.backend
    }

    pub fn as_bytes(&self) -> (r: &[u8])
        ensures
            r@ == self@.1,
    {
        self.bytes.as_slice()
    }

    /// An independent copy of this key.
    pub fn duplicate(&self) -> (r: Self)
        ensures
            r@ == self@,
    {
        Self { backend: self.backend, bytes: to_vec(self.bytes.as_slice()) }
    }

    /// The key with its backend tag.
    pub fn to_bytes(&self) -> (r: Vec<u8>)
        ensures
            r@ == public_key_bytes(self@),
    {
        let mut out: Vec<u8> = Vec::new();
        out.push(self.backend.to_u8());
        append_bytes(&mut out, self.bytes.as_slice());
        assert(out@ =~= public_key_bytes(self@));
        out
    }

    pub fn from_bytes(bytes: &[u8]) -> (r: PreResult<Self>)
        ensures
            match r {
                Ok(k) => public_key_of(bytes@) == Some(k@),
                Err(e) => public_key_of(bytes@) is None && e is InvalidKey,
            },
    {
        if bytes.len() == 0 {
            return Err(PreError::InvalidKey("empty public key".to_owned()));
        }
        let backend = BackendId::try_from_u8(bytes[0])?;
        let rest = copy_range(bytes, 1, bytes.len());
        assert(rest@ =~= bytes@.drop_first());
        Ok(Self { backend, bytes: rest })
    }
}

/// A re-encryption secret key of some backend.
#[derive(Clone)]
pub struct SecretKey {
    pub(crate) backend: BackendId,
    pub(crate) bytes: Vec<u8>,
}

impl View for SecretKey {
    type V = (BackendId, Seq<u8>);

    closed spec fn view(&self) -> (BackendId, Seq<u8>) {
        (self.backend, self.bytes@)
    }
}

impl SecretKey {
    pub fn new(backend: BackendId, bytes: Vec<u8>) -> (r: Self)
        ensures
            r@ == (backend, bytes@),
    {
        Self { backend, bytes }
    }

    pub fn backend(&self) -> (r: BackendId)
        ensures
            r == self@.0,
    {
        self.backend
    }

    pub fn as_bytes(&self) -> (r: &[u8])
        ensures
            r@ == self@.1,
    {
        self.bytes.as_slice()
    }
}

/// A public and secret key pair.
pub struct KeyPair {
    pub public: PublicKey,
    pub secret: SecretKey,
}

/// A re-encryption key: transforms ciphertexts for one recipient into
/// ciphertexts for another.
#[derive(Clone)]
pub struct RecryptKey {
    pub(crate) backend: BackendId,
    pub(crate) from_public: PublicKey,
    pub(crate) to_public: PublicKey,
    pub(crate) bytes: Vec<u8>,
}

/// The model of a re-encryption key: backend, source key, target key, key
/// bytes.
pub struct RecryptKeyView {
    pub backend: BackendId,
    pub from_public: (BackendId, Seq<u8>),
    pub to_public: (BackendId, Seq<u8>),
    pub bytes: Seq<u8>,
}

impl View for RecryptKey {
    type V = RecryptKeyView;

    closed spec fn view(&self) -> RecryptKeyView {
        RecryptKeyView {
            backend: self.backend,
            from_public: self.from_public@,
            to_public: self.to_public@,
            bytes: self.bytes@,
        }
    }
}

/// The encoding of a re-encryption key: the backend byte, each public key
/// framed by its length as four little-endian bytes, then the key bytes.
pub open spec fn recrypt_key_bytes(k: RecryptKeyView) -> Seq<u8> {
    let f = public_key_bytes(k.from_public);
    let t = public_key_bytes(k.to_public);
    seq![backend_byte(k.backend)] + le_bytes(f.len(), 4) + f + le_bytes(t.len(), 4) + t + k.bytes
}

/// Read a four-byte little-endian length.
fn read_u32(bytes: &[u8], pos: usize) -> (r: usize)
    requires
        pos + 4 <= bytes@.len(),
    ensures
        r as nat == le_value(bytes@.subrange(pos as int, pos + 4)),
{
    let b0 = bytes[pos] as usize;
    let b1 = bytes[pos + 1] as usize;
    let b2 = bytes[pos + 2] as usize;
    let b3 = bytes[pos + 3] as usize;
    let ghost s = bytes@.subrange(pos as int, pos + 4);
    assert(s.drop_first().drop_first().drop_first().drop_first() =~= Seq::<u8>::empty());
    assert(le_value(s) == b0 + 256 * (b1 + 256 * (b2 + 256 * b3))) by {
        reveal_with_fuel(le_value, 5);
        assert(s[0] == b0 as u8);
        assert(s.drop_first()[0] == b1 as u8);
        assert(s.drop_first().drop_first()[0] == b2 as u8);
        assert(s.drop_first().drop_first().drop_first()[0] == b3 as u8);
    }
    assert(b0 + 256 * (b1 + 256 * (b2 + 256 * b3)) < 0x1_0000_0000) by (nonlinear_arith)
        requires
            b0 < 256,
            b1 < 256,
            b2 < 256,
            b3 < 256,
    ;
    let r = b0 as u64 + 256 * (b1 as u64 + 256 * (b2 as u64 + 256 * b3 as u64));
    r as usize
}

impl RecryptKey {
    pub fn new(backend: BackendId, from_public: PublicKey, to_public: PublicKey, bytes: Vec<u8>) -> (r:
        Self)
        ensures
            r@ == (RecryptKeyView {
                backend,
                from_public: from_public@,
                to_public: to_public@,
                bytes: bytes@,
            }),
    {
        Self { backend, from_public, to_public, bytes }
    }

    pub fn backend(&self) -> (r: BackendId)
        ensures
            r == self@.backend,
    {
        self.backend
    }

    pub fn from_public(&self) -> (r: &PublicKey)
        ensures
            r@ == self@.from_public,
    {
        &self.from_public
    }

    pub fn to_public(&self) -> (r: &PublicKey)
        ensures
            r@ == self@.to_public,
    {
        &self.to_public
    }

    pub fn as_bytes(&self) -> (r: &[u8])
        ensures
            r@ == self@.bytes,
    {
        self.bytes.as_slice()
    }

    /// The key with its backend tag and both public keys.
    pub fn to_bytes(&self) -> (r: Vec<u8>)
        ensures
            r@ == recrypt_key_bytes(self@),
    {
        let mut out: Vec<u8> = Vec::new();
        out.push(self.backend.to_u8());
        let from_bytes = self.from_public.to_bytes();
        push_le(&mut out, from_bytes.len() as u64, 4);
        append_bytes(&mut out, from_bytes.as_slice());
        let to_bytes = self.to_public.to_bytes();
        push_le(&mut out, to_bytes.len() as u64, 4);
        append_bytes(&mut out, to_bytes.as_slice());
        append_bytes(&mut out, self.bytes.as_slice());
        assert(out@ =~= recrypt_key_bytes(self@));
        out
    }

    /// Decode a re-encryption key: succeeds exactly on the encodings of keys
    /// whose public keys frame in four-byte lengths, and returns the key
    /// encoded.
    pub fn from_bytes(bytes: &[u8]) -> (r: PreResult<Self>)
        ensures
            r matches Ok(k) ==> bytes@ == recrypt_key_bytes(k@),
            forall|k: RecryptKeyView|
                #![trigger recrypt_key_bytes(k)]
                recrypt_key_framable(k) && bytes@ == recrypt_key_bytes(k) ==> r is Ok,
            match r {
                Ok(_) => recrypt_key_refusal(bytes@) is None,
                Err(e) => match recrypt_key_refusal(bytes@) {
                    Some(KeyRefusal::Deserialization) => e is Deserialization,
                    Some(KeyRefusal::InvalidKey) => e is InvalidKey,
                    None => false,
                },
            },
    {
        let ghost s = bytes@;
        if bytes.len() < 9 {
            proof {
                assert forall|k: RecryptKeyView|
                    recrypt_key_framable(k) && s == #[trigger] recrypt_key_bytes(k) implies false by {
                    lemma_recrypt_key_layout(s, k);
                }
            }
            return Err(PreError::Deserialization("RecryptKey too short".to_owned()));
        }
        let backend = match BackendId::try_from_u8(bytes[0]) {
            Ok(b) => b,
            Err(e) => {
                proof {
                    assert forall|k: RecryptKeyView|
                        recrypt_key_framable(k) && s == #[trigger] recrypt_key_bytes(k) implies false by {
                        lemma_recrypt_key_layout(s, k);
                    }
                }
                return Err(e);
            },
        };
        let mut pos: usize = 1;
        let from_len = read_u32(bytes, pos);
        pos = pos + 4;
        if from_len > bytes.len() - pos {
            proof {
                assert forall|k: RecryptKeyView|
                    recrypt_key_framable(k) && s == #[trigger] recrypt_key_bytes(k) implies false by {
                    lemma_recrypt_key_layout(s, k);
                }
            }
            return Err(PreError::Deserialization("from_public truncated".to_owned()));
        }
        let from_slice = copy_range(bytes, pos, pos + from_len);
        let from_public = match PublicKey::from_bytes(from_slice.as_slice()) {
            Ok(k) => k,
            Err(e) => {
                proof {
                    assert forall|k: RecryptKeyView|
                        recrypt_key_framable(k) && s == #[trigger] recrypt_key_bytes(k) implies false by {
                        lemma_recrypt_key_layout(s, k);
                    }
                }
                return Err(e);
            },
        };
        pos = pos + from_len;
        if 4 > bytes.len() - pos {
            proof {
                assert forall|k: RecryptKeyView|
                    recrypt_key_framable(k) && s == #[trigger] recrypt_key_bytes(k) implies false by {
                    lemma_recrypt_key_layout(s, k);
                }
            }
            return Err(PreError::Deserialization("to_public length missing".to_owned()));
        }
        let to_len = read_u32(bytes, pos);
        pos = pos + 4;
        if to_len > bytes.len() - pos {
            proof {
                assert forall|k: RecryptKeyView|
                    recrypt_key_framable(k) && s == #[trigger] recrypt_key_bytes(k) implies false by {
                    lemma_recrypt_key_layout(s, k);
                }
            }
            return Err(PreError::Deserialization("to_public truncated".to_owned()));
        }
        let to_slice = copy_range(bytes, pos, pos + to_len);
        let to_public = match PublicKey::from_bytes(to_slice.as_slice()) {
            Ok(k) => k,
            Err(e) => {
                proof {
                    assert forall|k: RecryptKeyView|
                        recrypt_key_framable(k) && s == #[trigger] recrypt_key_bytes(k) implies false by {
                        lemma_recrypt_key_layout(s, k);
                    }
                }
                return Err(e);
            },
        };
        pos = pos + to_len;
        let key_bytes = copy_range(bytes, pos, bytes.len());
        let k = Self { backend, from_public, to_public, bytes: key_bytes };
        proof {
            crate::seqs::lemma_le_bytes_of_value(s.subrange(1, 5));
            crate::seqs::lemma_le_bytes_of_value(s.subrange(5 + from_len, 9 + from_len));
            assert(public_key_bytes(from_public@) =~= from_slice@);
            assert(public_key_bytes(to_public@) =~= to_slice@);
            assert(s =~= recrypt_key_bytes(k@));
        }
        Ok(k)
    }
}

/// Which kind of error decoding a re-encryption key gives.
#[derive(Clone, Copy, Debug, PartialEq, Eq, Structural)]
pub enum KeyRefusal {
    /// The bytes end before a field does.
    Deserialization,
    /// A backend tag is unknown, or a public key is empty.
    InvalidKey,
}

/// Why the bytes are no re-encryption key, checked in the order the decoder
/// reads them; `None` when they are one.
pub open spec fn recrypt_key_refusal(s: Seq<u8>) -> Option<KeyRefusal> {
    if s.len() < 9 {
        Some(KeyRefusal::Deserialization)
    } else if backend_of_byte(s[0]) is None {
        Some(KeyRefusal::InvalidKey)
    } else {
        let fl: int = le_value(s.subrange(1, 5)) as int;
        if fl > s.len() - 5 {
            Some(KeyRefusal::Deserialization)
        } else if public_key_of(s.subrange(5, 5 + fl)) is None {
            Some(KeyRefusal::InvalidKey)
        } else if 4 > s.len() - (5 + fl) {
            Some(KeyRefusal::Deserialization)
        } else {
            let tl: int = le_value(s.subrange(5 + fl, 9 + fl)) as int;
            if tl > s.len() - (9 + fl) {
                Some(KeyRefusal::Deserialization)
            } else if public_key_of(s.subrange(9 + fl, 9 + fl + tl)) is None {
                Some(KeyRefusal::InvalidKey)
            } else {
                None
            }
        }
    }
}

/// Both public keys of a re-encryption key frame in four-byte lengths.
pub open spec fn recrypt_key_framable(k: RecryptKeyView) -> bool {
    public_key_bytes(k.from_public).len() < 0x1_0000_0000 && public_key_bytes(k.to_public).len()
        < 0x1_0000_0000
}

/// The value of the low `k` bytes of a number below `256^k` is the number.
proof fn lemma_le_value_of_bytes(n: nat, k: nat)
    requires
        n < crate::auth::cbor::pow256(k),
    ensures
        le_value(le_bytes(n, k)) == n,
        le_bytes(n, k).len() == k,
    decreases k,
{
    if k > 0 {
        let p = crate::auth::cbor::pow256((k - 1) as nat);
        assert(n / 256 < p) by (nonlinear_arith)
            requires
                n < 256 * p,
        ;
        lemma_le_value_of_bytes(n / 256, (k - 1) as nat);
        assert(le_bytes(n, k).drop_first() =~= le_bytes(n / 256, (k - 1) as nat));
        assert(n == (n % 256) + 256 * (n / 256)) by (nonlinear_arith);
        assert(((n % 256) as u8) as nat == n % 256);
    }
}

/// Where each part of a re-encryption key's encoding lies.
proof fn lemma_recrypt_key_layout(s: Seq<u8>, k: RecryptKeyView)
    requires
        recrypt_key_framable(k),
        s == recrypt_key_bytes(k),
    ensures
        ({
            let f = public_key_bytes(k.from_public);
            let t = public_key_bytes(k.to_public);
            let fl = f.len() as int;
            let tl = t.len() as int;
            &&& s.len() == 9 + fl + tl + k.bytes.len()
            &&& s.len() >= 11
            &&& backend_of_byte(s[0]) == Some(k.backend)
            &&& le_value(s.subrange(1, 5)) == fl
            &&& s.subrange(5, 5 + fl) == f
            &&& le_value(s.subrange(5 + fl, 9 + fl)) == tl
            &&& s.subrange(9 + fl, 9 + fl + tl) == t
            &&& public_key_of(f) == Some(k.from_public)
            &&& public_key_of(t) == Some(k.to_public)
        }),
{
    let f = public_key_bytes(k.from_public);
    let t = public_key_bytes(k.to_public);
    let fl = f.len() as int;
    let tl = t.len() as int;
    crate::auth::cbor::lemma_pow256_values();
    lemma_le_value_of_bytes(f.len(), 4);
    lemma_le_value_of_bytes(t.len(), 4);
    let lf = le_bytes(f.len(), 4);
    let lt = le_bytes(t.len(), 4);
    assert(s =~= seq![backend_byte(k.backend)] + lf + f + lt + t + k.bytes);
    assert(s.subrange(1, 5) =~= lf);
    assert(s.subrange(5, 5 + fl) =~= f);
    assert(s.subrange(5 + fl, 9 + fl) =~= lt);
    assert(s.subrange(9 + fl, 9 + fl + tl) =~= t);
    law_key_and_ciphertext_roundtrip(k.from_public, (BackendId::Mock, 0, Seq::empty()));
    law_key_and_ciphertext_roundtrip(k.to_public, (BackendId::Mock, 0, Seq::empty()));
}

/// Reading back the encoding of a re-encryption key gives the key back.
pub proof fn law_recrypt_key_roundtrip(a: RecryptKeyView, b: RecryptKeyView)
    requires
        recrypt_key_framable(a),
        recrypt_key_framable(b),
        recrypt_key_bytes(a) == recrypt_key_bytes(b),
    ensures
        a == b,
{
    let s = recrypt_key_bytes(a);
    lemma_recrypt_key_layout(s, a);
    lemma_recrypt_key_layout(s, b);
    let fa = public_key_bytes(a.from_public);
    let ta = public_key_bytes(a.to_public);
    let start = 9 + fa.len() + ta.len();
    assert(s.subrange(start as int, s.len() as int) =~= a.bytes);
    assert(s.subrange(start as int, s.len() as int) =~= b.bytes);
}

/// A re-encryption ciphertext: backend, re-encryption level (0 for an
/// original, 1 and up after re-encryption) and ciphertext bytes.
#[derive(Clone, Debug)]
pub struct Ciphertext {
    pub(crate) backend: BackendId,
    pub(crate) level: u8,
    pub(crate) bytes: Vec<u8>,
}

impl View for Ciphertext {
    type V = (BackendId, u8, Seq<u8>);

    closed spec fn view(&self) -> (BackendId, u8, Seq<u8>) {
        (self.backend, self.level, self.bytes@)
    }
}

/// The encoding of a ciphertext: backend byte, level, ciphertext bytes.
pub open spec fn ciphertext_bytes(c: (BackendId, u8, Seq<u8>)) -> Seq<u8> {
    seq![backend_byte(c.0), c.1] + c.2
}

/// The ciphertext a byte string encodes, if any.
pub open spec fn ciphertext_of(s: Seq<u8>) -> Option<(BackendId, u8, Seq<u8>)> {
    if s.len() < 2 {
        None
    } else {
        match backend_of_byte(s[0]) {
            Some(b) => Some((b, s[1], s.subrange(2, s.len() as int))),
            None => None,
        }
    }
}

impl Ciphertext {
    pub fn new(backend: BackendId, level: u8, bytes: Vec<u8>) -> (r: Self)
        ensures
            r@ == (backend, level, bytes@),
    {
        Self { backend, level, bytes }
    }

    pub fn backend(&self) -> (r: BackendId)
        ensures
            r == self@.0,
    {
        self.backend
    }

    pub fn level(&self) -> (r: u8)
        ensures
            r == self@.1,
    {
        self.level
    }

    pub fn as_bytes(&self) -> (r: &[u8])
        ensures
            r@ == self@.2,
    {
        self.bytes.as_slice()
    }

    /// An independent copy of this ciphertext.
    pub fn duplicate(&self) -> (r: Self)
        ensures
            r@ == self@,
    {
        Self { backend: self.backend, level: self.level, bytes: to_vec(self.bytes.as_slice()) }
    }

    pub fn to_bytes(&self) -> (r: Vec<u8>)
        ensures
            r@ == ciphertext_bytes(self@),
    {
        let mut out: Vec<u8> = Vec::new();
        out.push(self.backend.to_u8());
        out.push(self.level);
        append_bytes(&mut out, self.bytes.as_slice());
        assert(out@ =~= ciphertext_bytes(self@));
        out
    }

    pub fn from_bytes(bytes: &[u8]) -> (r: PreResult<Self>)
        ensures
            match r {
                Ok(c) => ciphertext_of(bytes@) == Some(c@),
                Err(e) => ciphertext_of(bytes@) is None && (e is Deserialization || e is InvalidKey),
            },
    {
        if bytes.len() < 2 {
            return Err(PreError::Deserialization("Ciphertext too short".to_owned()));
        }
        let backend = BackendId::try_from_u8(bytes[0])?;
        Ok(Self { backend, level: bytes[1], bytes: copy_range(bytes, 2, bytes.len()) })
    }
}

/// Reading back the encoding of a public key or a ciphertext gives it back.
pub proof fn law_key_and_ciphertext_roundtrip(k: (BackendId, Seq<u8>), c: (BackendId, u8, Seq<u8>))
    ensures
        public_key_of(public_key_bytes(k)) == Some(k),
        ciphertext_of(ciphertext_bytes(c)) == Some(c),
{
    assert(public_key_bytes(k).drop_first() =~= k.1);
    assert(ciphertext_bytes(c).subrange(2, ciphertext_bytes(c).len() as int) =~= c.2);
}

// ---------------------------------------------------------------------------
// Backends
// ---------------------------------------------------------------------------

/// A proxy re-encryption scheme.
pub trait PreBackend {
    fn backend_id(&self) -> BackendId;

    fn name(&self) -> &'static str;

    fn is_post_quantum(&self) -> bool;

    fn generate_keypair(&self) -> PreResult<KeyPair>;

    fn public_key_from_secret(&self, secret: &SecretKey) -> PreResult<PublicKey>;

    fn generate_recrypt_key(&self, from_secret: &SecretKey, to_public: &PublicKey) -> PreResult<
        RecryptKey,
    >;

    /// `out` is what this backend gives when it encrypts `plaintext` for
    /// `recipient`. A backend that does not say holds it of anything.
    open spec fn encrypts(&self, recipient: PublicKey, plaintext: Seq<u8>, out: Ciphertext) -> bool {
        true
    }

    fn encrypt(&self, recipient: &PublicKey, plaintext: &[u8]) -> (r: PreResult<Ciphertext>)
        ensures
            r matches Ok(c) ==> self.encrypts(*recipient, plaintext@, c),
    ;

    /// `plaintext` is what this backend gives when it decrypts `ciphertext`
    /// under `secret`. A backend that does not say holds it of anything.
    open spec fn decrypts(&self, secret: SecretKey, ciphertext: Ciphertext, plaintext: Seq<u8>) -> bool {
        true
    }

    /// `out` is what this backend gives when it re-encrypts `ciphertext`
    /// with `recrypt_key`. A backend that does not say holds it of anything.
    open spec fn recrypts(&self, recrypt_key: RecryptKey, ciphertext: Ciphertext, out: Ciphertext) -> bool {
        true
    }

    fn decrypt(&self, secret: &SecretKey, ciphertext: &Ciphertext) -> (r: PreResult<Vec<u8>>)
        ensures
            r matches Ok(p) ==> self.decrypts(*secret, *ciphertext, p@),
    ;

    fn recrypt(&self, recrypt_key: &RecryptKey, ciphertext: &Ciphertext) -> (r: PreResult<
        Ciphertext,
    >)
        ensures
            r matches Ok(c) ==> self.recrypts(*recrypt_key, *ciphertext, c),
    ;

    /// Largest plaintext one ciphertext can hold, in bytes.
    fn max_plaintext_size(&self) -> usize;

    fn ciphertext_size_estimate(&self, plaintext_size: usize) -> usize;
}

/// Lattice re-encryption backend (OpenFHE BFV). This build has no OpenFHE:
/// creating the backend fails and every operation reports the backend as
/// unavailable.
pub struct LatticeBackend {
    unavailable: (),
}

impl LatticeBackend {
    /// Create the backend; fails because OpenFHE is not available.
    pub fn new() -> (r: PreResult<Self>)
        ensures
            r matches Err(e) && e is BackendUnavailable,
    {
        Err(PreError::BackendUnavailable("OpenFHE is not available in this build".to_owned()))
    }

    /// Whether the lattice backend is available (it is not).
    pub fn is_available() -> (r: bool)
        ensures
            !r,
    {
        false
    }
}

fn unavailable() -> (e: PreError)
    ensures
        e is BackendUnavailable,
{
    PreError::BackendUnavailable("OpenFHE is not available in this build".to_owned())
}

impl PreBackend for LatticeBackend {
    /// The backend never encrypts.
    open spec fn encrypts(&self, recipient: PublicKey, plaintext: Seq<u8>, out: Ciphertext) -> bool {
        false
    }

    /// The backend never decrypts.
    open spec fn decrypts(&self, secret: SecretKey, ciphertext: Ciphertext, plaintext: Seq<u8>) -> bool {
        false
    }

    /// The backend never re-encrypts.
    open spec fn recrypts(&self, recrypt_key: RecryptKey, ciphertext: Ciphertext, out: Ciphertext) -> bool {
        false
    }

    fn backend_id(&self) -> (r: BackendId)
        ensures
            r == BackendId::Lattice,
    {
        BackendId::Lattice
    }

    fn name(&self) -> (r: &'static str)
        ensures
            r@ == "OpenFHE BFV/PRE (Post-Quantum) [UNAVAILABLE]"@,
    {
        "OpenFHE BFV/PRE (Post-Quantum) [UNAVAILABLE]"
    }

    fn is_post_quantum(&self) -> (r: bool)
        ensures
            r,
    {
        true
    }

    fn generate_keypair(&self) -> (r: PreResult<KeyPair>)
        ensures
            r matches Err(e) && e is BackendUnavailable,
    {
        Err(unavailable())
    }

    fn public_key_from_secret(&self, secret: &SecretKey) -> (r: PreResult<PublicKey>)
        ensures
            r matches Err(e) && e is BackendUnavailable,
    {
        Err(unavailable())
    }

    fn generate_recrypt_key(&self, from_secret: &SecretKey, to_public: &PublicKey) -> (r: PreResult<
        RecryptKey,
    >)
        ensures
            r matches Err(e) && e is BackendUnavailable,
    {
        Err(unavailable())
    }

    fn encrypt(&self, recipient: &PublicKey, plaintext: &[u8]) -> (r: PreResult<Ciphertext>)
        ensures
            r matches Err(e) && e is BackendUnavailable,
    {
        Err(unavailable())
    }

    fn decrypt(&self, secret: &SecretKey, ciphertext: &Ciphertext) -> (r: PreResult<Vec<u8>>)
        ensures
            r matches Err(e) && e is BackendUnavailable,
    {
        Err(unavailable())
    }

    fn recrypt(&self, recrypt_key: &RecryptKey, ciphertext: &Ciphertext) -> (r: PreResult<Ciphertext>)
        ensures
            r matches Err(e) && e is BackendUnavailable,
    {
        Err(unavailable())
    }

    /// One lattice plaintext slot: 96 bytes.
    fn max_plaintext_size(&self) -> (r: usize)
        ensures
            r == 96,
    {
        96
    }

    /// A ciphertext takes about 8 KiB and a 4-byte header, whatever the
    /// plaintext.
    fn ciphertext_size_estimate(&self, plaintext_size: usize) -> (r: usize)
        ensures
            r == 4 + 8 * 1024,
    {
        4 + 8 * 1024
    }
}

} // verus!
