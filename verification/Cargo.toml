[package]
name = "ipgeod"
version = "0.1.0"
edition = "2021"
publish = false

[dependencies]
anyhow = "*"
clap = { version = "*", features = ["derive", "env"] }
env_logger = "*"
log = "*"
poem = "*"
poem-openapi = "*"
tokio = { version = "*", features = ["macros", "rt-multi-thread", "signal"] }
