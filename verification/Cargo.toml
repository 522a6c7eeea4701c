[package]
name = "axon_executor"
version = "0.1.0"
edition = "2021"
publish = false

[dependencies]
arc-swap = "=1.9.2"
hash-db = "=0.15.2"
keccak-hasher = "=0.15.3"
triehash = "=0.8.4"
secp256k1 = { version = "=0.28.2", features = ["recovery"] }
serde = { version = "=1.0.229", features = ["derive"] }
