# recrypt

Verified building blocks of an end-to-end encrypted storage system with
proxy re-encryption, hardware-friendly authentication and capability-based
authorization, written in Verus.

## Layout

- `src/auth/` — challenge/response authentication: algorithm tags,
  self-describing keys and signatures, canonical CBOR (encoder and strict
  decoder), challenges and responses, single-use nonces, downgrade-proof
  verification, node attestations, and the conversions that enclave-backed
  signers need (SEC1 points, DER signatures, CNG key blobs).
- `src/storage/` — storage authorization: key fingerprints, keyspace
  documents and their version chains, access grants, file ownership,
  capability tokens and their Gordian Envelope form, and the row forms used
  by relational stores.
- `src/proxy/` — the proxy re-encryption core: key and ciphertext byte
  forms, hybrid (XChaCha20 + PRE-wrapped key) file encryption, streamed
  encryption and (range) decryption checked against a BLAKE3 verification
  tree, Ed25519 / ML-DSA-87 multi-signatures.
- `src/foreign/` — every call into std or an outside crate, each behind a
  small function whose contract states what the library relies on.
- `src/seqs.rs` — byte-string utilities and their lemmas.
- `app/` — what the verifier does not see: async store traits and their
  lock-guarded and SQLite implementations, and the async reading and
  writing around the library's streamed encryption.
- `tests/` — executable tests of the library.

Laws of the library (encoding round trips, single use of nonces,
downgrade-proofness, chain validity of stored keyspaces, what a store
gives back after a write) are public proof functions named `law_*`.
