[package]
name = "finbox"
version = "0.1.0"
edition = "2021"
publish = false

[dependencies]
chrono = "0.4"
serde_json = "1"
serde = { version = "1", features = ["derive"] }
anyhow = "1"
async-trait = "0.1"
axum = "0.8"
clap = { version = "4", features = ["derive", "env"] }
dotenvy = "0.15"
duckdb = "1"
env_logger = "0.11"
futures-util = "0.3"
log = "0.4"
reqwest = { version = "0.12", default-features = false, features = ["json", "stream", "rustls-tls"] }
rusqlite = "0.32"
thiserror = "2"
tokio = { version = "1", features = ["rt-multi-thread", "macros", "time", "fs", "net", "sync", "io-util"] }
