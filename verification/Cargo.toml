[package]
name = "counter"
version = "0.1.0"
edition = "2021"
publish = false

[dependencies]
log = "=0.4.34"
solana-metrics = "=2.3.13"
solana-sdk = { version = "=2.2.2", default-features = false }
