[package]
name = "rv32_emu"
version = "0.1.0"
edition = "2021"
publish = false

[dependencies]
object = { version = "*", default-features = false, features = ["read"] }
hex = "0.4"
log = "0.4"
anyhow = "1"
clap = { version = "4", features = ["derive"] }
env_logger = "0.11"
memmap2 = "0.9"
