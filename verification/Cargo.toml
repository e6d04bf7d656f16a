[package]
name = "mindns"
version = "0.1.0"
edition = "2021"
publish = false

[dependencies]
anyhow = "1"
async-lock = "2"
chrono = "0.4"
env_logger = "0.10"
log = "0.4"
net2 = "0.2"
num_cpus = "1"
serde = { version = "1", features = ["derive"] }
serde_derive = "1"
tokio = { version = "1", features = ["full"] }
toml = "0.8"
