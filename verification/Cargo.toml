[package]
name = "ra_multiplex"
version = "0.1.0"
edition = "2021"
publish = false

[dependencies]
serde_json = "1"
tokio = { version = "1", features = ["full"] }
anyhow = "1"
log = "0.4"
pretty_env_logger = "*"
