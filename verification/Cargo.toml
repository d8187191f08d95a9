[package]
name = "opencrab"
version = "0.1.0"
edition = "2021"
publish = false

[dependencies]
anyhow = "=1.0.104"
async-trait = "=0.1.92"
axum = { version = "=0.8.9", features = ["ws"] }
clap = { version = "=4.6.7", features = ["derive"] }
dirs = "=6.0.0"
futures = "=0.3.34"
prost = "=0.13.5"
regex = "=1.13.1"
reqwest = { version = "=0.12.28", default-features = false, features = ["json", "rustls-tls"] }
rig-core = "=0.34.0"
schemars = "=1.2.3"
serde = { version = "=1.0.229", features = ["derive"] }
serde_json = "=1.0.154"
thiserror = "=2.0.21"
tokio = { version = "=1.54.1", features = ["full"] }
tokio-tungstenite = "=0.26.2"
toml = "=0.8.23"
tracing = "=0.1.44"
tracing-subscriber = { version = "=0.3.23", features = ["env-filter"] }
