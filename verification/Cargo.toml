[package]
name = "zk_deap_harness"
version = "0.1.0"
edition = "2021"
publish = false

[dependencies]
base64 = "0.22"
bincode = "1"
chrono = "0.4"
clap = { version = "4", features = ["derive"] }
curve25519-dalek-ng = "4"
ed25519-dalek = "2"
frost-ristretto255 = "2"
rand = "0.8"
reqwest = { version = "0.12", default-features = false, features = ["blocking", "json"] }
serde = { version = "1", features = ["derive"] }
serde_json = "1"
