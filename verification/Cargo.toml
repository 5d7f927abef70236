[package]
name = "envlt"
version = "0.1.0"
edition = "2021"
publish = false

[dependencies]
serde_json = "1"
anyhow = "1"
argh = "*"
env_logger = "*"
libc = "0.2"
log = "0.4"
