[package]
name = "config_program"
version = "0.1.0"
edition = "2021"
publish = false

[dependencies]
bincode = "=1.3.3"
clap = { version = "4", features = ["derive"] }
serde = "=1.0.229"
solana-account = "*"
solana-account-info = "*"
solana-instruction = { version = "*", features = ["bincode"] }
solana-program-error = "*"
solana-pubkey = "*"
solana-short-vec = "=3.3.0"
solana-system-interface = { version = "*", features = ["bincode"] }
thiserror = "*"
