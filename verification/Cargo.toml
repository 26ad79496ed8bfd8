[package]
name = "minikeyvalue"
version = "0.1.0"
edition = "2021"
publish = false

[dependencies]
md5 = "=0.7.0"
base64 = "=0.22.1"
gxhash = "=3.0.0"
anyhow = "=1.0.104"
axum = "=0.7.9"
bytes = "=1.12.1"
clap = { version = "=4.6.7", features = ["derive"] }
env_logger = "=0.11.11"
futures = "=0.3.34"
leveldb = "=0.8.6"
log = "=0.4.34"
parking_lot = "=0.12.5"
rand = "=0.8.8"
reqwest = { version = "=0.12.28", default-features = false }
tokio = { version = "=1.54.1", features = ["full"] }

[dev-dependencies]
bincode = "=1.3.3"
hashring = "=0.3.6"
