[package]
name = "boardswarm_qdl"
version = "0.1.0"
edition = "2021"
publish = false

[dependencies]
anyhow = "1"
async-trait = "0.1"
bytes = "1"
indicatif = { version = "*", features = ["tokio"] }
serde = { version = "1", features = ["derive"] }
serde_yaml = "0.9"
thiserror = "*"
tokio = { version = "1", features = ["fs", "io-util", "macros", "rt", "rt-multi-thread", "sync"] }
tokio-stream = "0.1"
tonic = "*"
tracing = "0.1"
xmltree = "*"
