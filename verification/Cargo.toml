[package]
name = "transactions"
version = "0.1.0"
edition = "2021"
publish = false

[dependencies]
clap = { version = "3", default-features = false, features = ["std"] }
csv = "1"
env_logger = "*"
eyre = "0.6"
log = "0.4"
