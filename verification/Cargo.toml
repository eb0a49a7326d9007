[package]
name = "kafka_pipe"
version = "0.1.0"
edition = "2021"
publish = false

[dependencies]
clap = { version = "*", features = ["derive"] }
ctrlc = "*"
env_logger = "*"
kafka = { version = "*", default-features = false }
log = "*"
