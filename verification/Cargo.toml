[package]
name = "recrypt"
version = "0.1.0"
edition = "2021"
publish = false

[dependencies]
blake3 = "=1.8.7"
bs58 = "=0.5.1"
ed25519-dalek = { version = "=2.2.0", features = ["rand_core"] }
p256 = { version = "=0.13.2", features = ["ecdsa"] }
fips204 = "=0.4.6"
rand_core = { version = "=0.6.4", features = ["getrandom"] }
rand = "=0.8.8"
chacha20 = "=0.9.1"
zeroize = "=1.9.1"
tokio = { version = "=1.54.1", features = ["sync", "io-util", "rt", "macros"] }
async-trait = "=0.1.92"
bao-tree = "=0.17.0"
bytes = "=1.12.1"
thiserror = "=1.0.69"
bc-envelope = "=0.43.0"
tokio-rusqlite = "=0.8.0"
serde = { version = "1", features = ["derive"] }
serde_json = "1"
