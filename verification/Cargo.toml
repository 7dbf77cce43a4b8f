[package]
name = "miner_scanner"
version = "0.1.0"
edition = "2021"
publish = false

[dependencies]
asic-rs = "*"
chrono = "*"
dirs = "*"
rlimit = "*"
serde = { version = "*", features = ["derive"] }
serde_json = "*"
tokio = { version = "*", features = ["rt-multi-thread"] }
