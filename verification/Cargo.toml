[package]
name = "shred_pipeline"
version = "0.1.0"
edition = "2021"
publish = false

[dependencies]
anyhow = "1"
bs58 = "0.5"
reed-solomon-erasure = "6"
tokio = { version = "1", features = ["rt", "net", "sync"] }
tracing = "0.1"
