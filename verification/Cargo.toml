[package]
name = "ethereum_eulerswap"
version = "0.1.0"
edition = "2021"
publish = false

[dependencies]
anyhow = "1"
ethabi = "18"
hex = "0.4"
itertools = "0.12"
serde = { version = "1", features = ["derive"] }
serde_qs = "0.13"
substreams = "0.5"
substreams-ethereum = "0.9"
tycho-substreams = "*"
