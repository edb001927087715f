[package]
name = "danube_reliable_dispatch"
version = "0.1.0"
edition = "2021"
publish = false

[dependencies]
moka = { version = "0.12", features = ["sync"] }
dashmap = "6"
tokio = { version = "1", features = ["sync", "time", "rt", "macros"] }
clap = { version = "4", features = ["derive"] }
anyhow = "1"
tracing = "0.1"
serde_json = "1"
tonic = "0.12"
