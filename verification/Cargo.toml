[package]
name = "zephyrfs"
version = "0.1.0"
edition = "2021"
publish = false

[dependencies]
sha2 = "0.10"
hex = "0.4"
ring = "0.17"
blake3 = "1"
chrono = "0.4"
uuid = { version = "1", features = ["v4", "serde"] }
rand = "0.8"
serde = { version = "1", features = ["derive"] }
bincode = "1"
rocksdb = "0.22"
tokio = { version = "1", features = ["full"] }
tracing = "0.1"
anyhow = "1"
futures = "0.3"
zeroize = "1"
