[package]
name = "zing"
version = "0.1.0"
edition = "2021"
publish = false

[dependencies]
beep = "*"
clap = { version = "*", features = ["derive"] }
env_logger = "*"
humantime = "*"
log = "*"
