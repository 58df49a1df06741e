[package]
name = "httpcore"
version = "0.1.0"
edition = "2021"
publish = false

[dependencies]
anyhow = "1"
env_logger = "0.11"
flate2 = "1"
log = "0.4"
threadpool = "1"
