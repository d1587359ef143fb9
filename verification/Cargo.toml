[package]
name = "onchain_metadata"
version = "0.1.0"
edition = "2021"
publish = false

[dependencies]
solana-program = "1.18"

[dev-dependencies]
serde_json = "1"
borsh = "1"
