[package]
name = "work_ledger"
version = "0.1.0"
edition = "2021"
publish = false

[dependencies]
age = "0.11"
anyhow = "1"
base64 = "0.22"
bech32 = "0.9"
chrono = { version = "0.4", features = ["serde"] }
http = "1"
once_cell = "1"
rand = "0.9"
serde = { version = "1", features = ["derive"] }
serde_json = "1"
sha2 = "0.10"
thiserror = "2"
tokio = { version = "1", features = ["rt", "rt-multi-thread", "sync", "time", "macros", "fs"] }
tracing = "0.1"
