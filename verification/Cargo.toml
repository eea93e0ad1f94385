[package]
name = "shreds_subscribe"
version = "0.1.0"
edition = "2021"
publish = false

[dependencies]
anyhow = "=1.0.104"
base64 = "=0.22.1"
bincode = "=1.3.3"
chrono = { version = "=0.4.45", default-features = false, features = ["alloc", "std"] }
clap = { version = "4", default-features = false, features = ["derive", "env", "error-context", "help", "std", "usage"] }
crossbeam-channel = "=0.5.17"
dashmap = { version = "=5.5.3", default-features = false }
futures-util = "=0.3.34"
itertools = "=0.12.1"
jsonrpc-core = "=18.0.0"
jsonrpc-http-server = "18"
reqwest = { version = "=0.11.27", default-features = false, features = ["json"] }
serde = { version = "=1.0.229", features = ["derive"] }
serde_json = "=1.0.154"
solana-entry = "=2.0.25"
solana-sdk = "=2.0.25"
tokio = { version = "=1.54.1", features = ["macros", "net", "rt-multi-thread", "signal", "sync", "time"] }
tokio-tungstenite = "0.26"
toml = "=0.5.11"
tracing = "=0.1.44"
tracing-appender = "0.2"
tracing-subscriber = { version = "0.3", features = ["env-filter"] }
