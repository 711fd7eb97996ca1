[package]
name = "tx3_hydra"
version = "0.1.0"
edition = "2021"
publish = false

[dependencies]
anyhow = "*"
base64 = "*"
config = "*"
futures-util = "*"
jsonrpsee = { version = "*", features = ["server"] }
reqwest = { version = "*", default-features = false, features = ["json"] }
serde = { version = "*", features = ["derive"] }
serde_json = "*"
tokio = { version = "*", features = ["macros", "rt-multi-thread", "sync", "net", "time", "signal"] }
tokio-tungstenite = "*"
tokio-util = "*"
tower = "*"
tower-http = { version = "*", features = ["cors"] }
tracing = "*"
tracing-subscriber = { version = "*", features = ["env-filter"] }
tx3-cardano = "*"
tx3-lang = "*"
tx3-resolver = "*"
tx3-sdk = "*"
