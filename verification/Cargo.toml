[package]
name = "pwned_passwords_downloader_rs"
version = "0.7.0"
edition = "2021"
publish = false

[dependencies]
anyhow = "1"
async-trait = "0.1"
clap = { version = "4", features = ["derive"] }
futures = "0.3"
indicatif = "*"
rand = "0.9"
reqwest = { version = "0.12", default-features = false, features = ["brotli", "gzip", "http2", "rustls-tls", "stream"] }
serde = { version = "1", features = ["derive"] }
serde_json = "1"
thiserror = "2"
tokio = { version = "1", features = ["fs", "io-util", "macros", "rt-multi-thread", "signal", "sync", "time"] }
tokio-util = { version = "0.7", features = ["io"] }
tracing = "0.1"
tracing-indicatif = "*"
tracing-subscriber = "0.3"
