[package]
name = "dh-p2p"
version = "0.1.0"
edition = "2021"
publish = false

[dependencies]
async-trait = "0.1"
axum = "0.7"
base64 = "0.22"
chrono = "0.4"
clap = { version = "4", features = ["derive"] }
env_logger = "0.11"
log = "0.4"
rand = "0.8"
sha1 = "0.10"
tokio = { version = "1", features = ["full"] }
xml-rs = "0.8"
