[package]
name = "kindle_clippings"
version = "0.1.0"
edition = "2021"
publish = false

[dependencies]
chrono = "*"
askama = "*"
clap = { version = "*", features = ["derive"] }
dialoguer = "*"
env_logger = "*"
log = "*"
