[package]
name = "llama_harness"
version = "0.1.0"
edition = "2021"
publish = false

[dependencies]
serde = { version = "1", features = ["derive"] }
serde_json = "1"
toml = "0.8"
dirs = "5"
thiserror = "1"
anyhow = "1"
async-trait = "0.1"
futures = "0.3"
async-stream = "0.3"
tokio = { version = "1", features = ["sync", "rt", "macros"] }
tracing = "0.1"
parking_lot = "0.12"
