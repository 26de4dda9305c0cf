[package]
name = "pe_recon"
version = "0.1.0"
edition = "2021"
publish = false

[dependencies]
patternscanner = "=0.5.0"
lzma-rs = { version = "=0.3.0", features = ["raw_decoder"] }
goblin = "=0.10.7"
serde = { version = "=1.0.229", features = ["derive"] }
serde_json = "=1.0.151"
