[package]
name = "dex_aggregator"
version = "0.1.0"
edition = "2021"
publish = false

[dependencies]
anyhow = "1"
axum = "0.8"
base64 = "=0.22.1"
bigdecimal = { version = "=0.4.11", features = ["serde"] }
borsh = { version = "=1.8.1", features = ["derive"] }
cached = "0.59"
chrono = { version = "0.4", features = ["serde"] }
crypto-bigint = "=0.5.5"
dotenvy = "0.15"
futures-util = "0.3"
lazy_static = "1"
near-sdk = { version = "=5.17.2", features = ["non-contract-usage"] }
num-traits = "=0.2.19"
rand = "0.8"
reqwest = { version = "0.12", default-features = false, features = ["json", "rustls-tls"] }
serde = { version = "1", features = ["derive"] }
serde_json = "=1.0.154"
tokio = { version = "1", features = ["full"] }
tower-http = { version = "0.6", features = ["cors"] }
tracing = "0.1"
tracing-subscriber = "0.3"
warp = "0.3"
