[package]
name = "snapmirror"
version = "0.1.0"
edition = "2021"
publish = false

[dependencies]
anyhow = "1"
chrono = { version = "0.4", default-features = false, features = ["std"] }
clap = { version = "3", features = ["derive", "cargo"] }
log = "0.4"
pretty_env_logger = "*"
ssh2 = "0.9"
