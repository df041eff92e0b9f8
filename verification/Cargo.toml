[package]
name = "relationship_ledger"
version = "0.1.0"
edition = "2021"
publish = false

[dependencies]
solana-program = "=2.3.0"
spl-token = "=6.0.0"
mpl-token-metadata = "=5.1.1"
