[package]
name = "openscad_part_maker"
version = "0.1.0"
edition = "2021"
publish = false

[dependencies]
anyhow = "*"
axum = { version = "*", features = ["multipart"] }
bytes = "*"
clap = "*"
clap_complete = "*"
env_logger = "*"
log = "*"
tempfile = "*"
tokio = { version = "*", features = ["macros", "rt-multi-thread", "net", "fs", "process", "signal"] }
