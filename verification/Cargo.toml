[package]
name = "crucible"
version = "0.1.0"
edition = "2021"
publish = false

[dependencies]
soroban-sdk = { version = "=29.0.1", features = ["testutils"] }
soroban-env-host = { version = "=29.0.1", features = ["testutils"] }
ed25519-dalek = "=2.2.0"
k256 = { version = "=0.13.4", features = ["ecdsa"] }
p256 = { version = "=0.13.2", features = ["ecdsa"] }
rand = "=0.8.8"
rand_chacha = "=0.3.1"
serde = { version = "=1.0.229", features = ["derive"] }
serde_json = "=1.0.154"
