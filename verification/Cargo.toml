[package]
name = "nezha_dashboard"
version = "0.1.0"
edition = "2021"
publish = false

[dependencies]
anyhow = "=1.0.104"
async-stream = "=0.3.6"
axum = { version = "=0.8.9", features = ["ws", "multipart"] }
bcrypt = "=0.17.1"
chrono = { version = "=0.4.45", features = ["serde"] }
clap = { version = "=4.6.7", features = ["derive", "env"] }
cron = "=0.15.0"
futures-util = "=0.3.34"
hmac = "=0.12.1"
jsonwebtoken = "=9.3.1"
maxminddb = "=0.26.0"
prost = "=0.13.5"
reqwest = { version = "=0.12.28", default-features = false, features = ["json", "rustls-tls"] }
rusqlite = { version = "=0.37.0", features = ["bundled"] }
serde = { version = "=1.0.229", features = ["derive"] }
serde_json = { version = "=1.0.154", features = ["raw_value"] }
serde_yaml = "=0.9.34"
sha2 = "=0.10.9"
tokio = { version = "=1.54.1", features = ["full"] }
tokio-stream = "=0.1.19"
tonic = "=0.13.1"
tracing = "=0.1.44"
tracing-subscriber = { version = "=0.3.23", features = ["env-filter"] }
uuid = { version = "=1.29.0", features = ["v4"] }
zip = { version = "=2.6.1", default-features = false, features = ["deflate"] }
