[package]
name = "percolator_risk"
version = "0.1.0"
edition = "2021"
publish = false

[dependencies]
anyhow = "=1.0.104"
colored = "=2.2.0"
solana-sdk = { version = "=5.0.0", default-features = false, features = ["full"] }
