[package]
name = "pairing_oracle"
version = "0.1.0"
edition = "2021"
publish = false

[dependencies]
ark-bn254 = "0.4"
ark-ff = "0.4"
ark-std = "0.4"
num-bigint = "0.4"
num-traits = "0.2"
rand = "0.8"
serde = { version = "1", features = ["derive"] }
serde_json = "1"
jsonrpsee = { version = "0.24", features = ["server"] }
tokio = { version = "1", features = ["rt-multi-thread", "macros"] }
anyhow = "1"
tracing-subscriber = { version = "0.3", features = ["env-filter"] }
