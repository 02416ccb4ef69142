[package]
name = "shard_state"
version = "0.1.0"
edition = "2021"
publish = false

[dependencies]
actix-rt = "2"
anyhow = "1"
borsh = "0.10"
crossbeam = "0.8"
itertools = "0.10"
rand = "0.8"
rust-s3 = "0.33"
sha2 = "0.10"
tokio = { version = "1", features = ["time"] }
tracing = "0.1"
