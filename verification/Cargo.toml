[package]
name = "protohackers"
version = "0.1.0"
edition = "2021"
publish = false

[dependencies]
anyhow = "1"
argh = "0.1"
async-io = "*"
asynchronous-codec = "*"
env_logger = "*"
futures-lite = "*"
log = "0.4"
serde = { version = "1", features = ["derive"] }
serde_json = "1"
smol = "*"
