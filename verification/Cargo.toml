[package]
name = "iroh-moq"
version = "0.1.0"
edition = "2021"
publish = false

[dependencies]
anyhow = "1"
async-trait = "0.1"
blake3 = "1"
bytes = "1"
dashmap = "6"
futures = "0.3"
iroh = { version = "1", default-features = false }
iroh-gossip = { version = "0.101", default-features = false, features = ["net"] }
serde = { version = "1", features = ["derive"] }
serde_json = "1"
tokio = { version = "1", features = ["fs", "io-util", "macros", "rt-multi-thread", "sync", "time"] }
tokio-stream = "0.1"
tracing = "0.1"
uuid = { version = "1", features = ["serde", "v4"] }
