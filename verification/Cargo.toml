[package]
name = "garbled_snark_verifier"
version = "0.1.0"
edition = "2021"
publish = false

[dependencies]
aes = "0.8"
ark-ec = "0.5"
ark-ff = "0.5"
ark-secp256k1 = "0.5"
ark-serialize = "0.5"
bincode = "2"
blake3 = "1"
crossbeam = "0.8"
itertools = "0.14"
rand = "0.8"
rand_chacha = "0.3"
rayon = "1"
serde = { version = "1", features = ["derive"] }
sha2 = "0.10"
slab = "0.4"
thiserror = "2"
tracing = "0.1"
