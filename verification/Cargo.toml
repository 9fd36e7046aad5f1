[package]
name = "p2p_download"
version = "0.1.0"
edition = "2021"
publish = false

[dependencies]
async-trait = "=0.1.92"
futures = "=0.3.34"
librqbit = "=8.1.1"
reqwest = { version = "=0.12.28", features = ["stream"] }
tokio = { version = "=1.54.1", features = ["fs", "io-util", "rt", "sync", "time"] }
