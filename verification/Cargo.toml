[package]
name = "ping_dispatch"
version = "0.1.0"
edition = "2021"
publish = false

[dependencies]
bincode = "=1.3.3"
clap = { version = "=3.2.25", features = ["cargo"] }
solana-clap-v3-utils = "=1.18.26"
solana-cli-config = "=1.18.26"
solana-logger = "=1.18.26"
solana-remote-wallet = "=1.18.26"
solana-sdk = "=1.18.26"
tokio = { version = "=1.54.1", features = ["macros", "rt-multi-thread", "time"] }
