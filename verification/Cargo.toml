[package]
name = "aiss"
version = "0.1.0"
edition = "2021"
publish = false

[dependencies]
rand = "0.8"
uuid = { version = "1", features = ["v4"] }
serde = { version = "1", features = ["derive"] }
serde_yaml = "0.9"
serde_json = "1"
csv = "1"
anyhow = "1"
thiserror = "1"
async-trait = "0.1"
futures = "0.3"
tokio = { version = "1", features = ["macros", "rt-multi-thread", "time", "sync", "net", "io-std"] }
tokio-stream = "0.1"
clap = { version = "4", features = ["derive", "env"] }
axum = "0.7"
reqwest = { version = "0.12", default-features = false, features = ["json", "stream"] }
tracing = "0.1"
tracing-subscriber = { version = "0.3", features = ["env-filter"] }
