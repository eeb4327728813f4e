[package]
name = "mbtalerts"
version = "0.1.0"
edition = "2021"
publish = false

[dependencies]
again = "0.1"
anyhow = "1"
chrono = "0.4"
clap = "4"
gcp_auth = "0.12"
lambda_runtime = "1"
log = "0.4"
reqwest = { version = "0.12", default-features = false, features = ["gzip", "json", "rustls-tls"] }
rustls = "0.23"
serde = { version = "1", features = ["derive"] }
serde_json = "1"
tokio = { version = "1", features = ["fs", "io-util", "macros", "rt-multi-thread"] }
