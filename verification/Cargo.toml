[package]
name = "mini_db"
version = "1.0.0"
edition = "2021"
publish = false

[dependencies]
anyhow = "1"
arc-swap = "1"
bytes = "1"
chrono = "0.4"
clap = { version = "4", features = ["derive"] }
colored = "*"
crc32fast = "1"
memmap2 = "0.9"
rand = "*"
rustc-hash = "2"
tokio = { version = "1", features = ["full"] }
