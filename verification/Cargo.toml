[package]
name = "loki-dm-core"
version = "0.1.0"
edition = "2021"
publish = false

[dependencies]
url = "2"
dirs = "6"
rand = "0.9"
semver = "1"
serde = { version = "1", features = ["derive"] }
serde_json = "1"
toml = "0.8"
tokio = { version = "1", features = ["rt-multi-thread", "macros", "fs", "process", "signal", "sync", "time", "io-util", "io-std"] }
reqwest = { version = "0.12", default-features = false, features = ["rustls-tls", "stream", "json", "socks"] }
futures-util = "0.3"
m3u8-rs = "6"
clap = { version = "4", features = ["derive"] }
anyhow = "1"
thiserror = "2"
tracing = "0.1"
tracing-subscriber = { version = "0.3", features = ["env-filter"] }
