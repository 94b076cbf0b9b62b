[package]
name = "mu-core"
version = "0.1.0"
edition = "2021"
publish = false

[dependencies]
anyhow = "1"
blake3 = "1"
dirs = "*"
figment = { version = "0.10", features = ["toml", "env"] }
serde = { version = "1", features = ["derive"] }
serde_json = "1"
serde_yaml = "0.9"
thiserror = "*"
tokio = { version = "1", features = ["rt", "rt-multi-thread", "io-util", "io-std", "net", "process", "sync", "time", "macros"] }
toml = "0.8"
tracing = "0.1"
