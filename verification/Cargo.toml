[package]
name = "herbert-backend"
version = "0.1.0"
edition = "2021"
publish = false

[dependencies]
safetensors = "0.4"
anyhow = "1"
indicatif = "0.17"
libc = "0.2"
memmap2 = "0.9"
tracing = "0.1"
