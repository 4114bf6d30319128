[package]
name = "tacit"
version = "0.1.0"
edition = "2021"
publish = false

[dependencies]
addr2line = "*"
anyhow = "*"
bus = "*"
capstone = "*"
clap = { version = "*", features = ["derive"] }
env_logger = "*"
indexmap = "*"
log = "*"
object = "*"
