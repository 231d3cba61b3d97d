[package]
name = "blob_ingest"
version = "0.1.0"
edition = "2021"
publish = false

[dependencies]
web3 = { version = "0.19", default-features = false, features = ["http"] }
tokio = { version = "1", features = ["rt-multi-thread", "macros"] }
structopt = "0.3"
serde = { version = "1", features = ["derive"] }
serde_json = "1"
