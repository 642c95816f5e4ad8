[package]
name = "solana-transaction-builder"
version = "0.1.0"
edition = "2021"
publish = false

[dependencies]
anyhow = "1"
async-stream = "0.3"
base64 = "0.21"
bincode = "1.3"
cached = { version = "*", features = ["async"] }
futures = "0.3"
log = "0.4"
solana-sdk = "1.18"
thiserror = "1"
tokio = { version = "1", features = ["sync", "rt", "macros"] }
uuid = { version = "1", features = ["v4"] }

[dev-dependencies]
borsh = "0.10"
