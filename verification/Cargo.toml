[package]
name = "bmvs_verifier"
version = "0.1.0"
edition = "2021"
publish = false

[dependencies]
sha3 = "0.10"
ed25519-dalek = { version = "2", features = ["rand_core"] }
rand_core = { version = "0.6", features = ["getrandom"] }
serde = { version = "1", features = ["derive"] }
serde_json = "1"
thiserror = "2"
