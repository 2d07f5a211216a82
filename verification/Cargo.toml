[package]
name = "miden_vault"
version = "0.1.0"
edition = "2021"
publish = false

[dependencies]
miden-crypto = { version = "=0.23.0", default-features = false, features = ["std"] }
miden-core = { version = "=0.22.4", features = ["std", "testing"] }
miden-core-lib = "=0.22.4"
miden-processor = "=0.22.4"
miden-prover = "=0.22.4"
thiserror = "2"

[dev-dependencies]
anyhow = "1"
