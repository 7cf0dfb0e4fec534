[package]
name = "bc_codec"
version = "0.1.0"
edition = "2021"
publish = false

[dependencies]
aes = "=0.8.4"
anyhow = "=1.0.104"
bytes = "=1.12.1"
clap = { version = "=4.6.7", features = ["derive"] }
env_logger = "=0.11.11"
log = "=0.4.34"
md5 = "=0.7.0"
serde = { version = "=1.0.229", features = ["derive"] }
tokio = { version = "=1.54.1", features = ["rt-multi-thread", "macros", "net", "io-util"] }
tokio-util = { version = "=0.7.20", features = ["codec"] }
toml = "=0.8.23"
validator = { version = "=0.18.1", features = ["derive"] }
