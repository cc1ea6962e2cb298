[package]
name = "redis_starter_rust"
version = "0.1.0"
edition = "2021"
publish = false

[dependencies]
anyhow = "1"
bytes = "1"
clap = { version = "4", features = ["derive"] }
crc = "3"
tokio = { version = "1", features = ["rt-multi-thread", "net", "io-util", "macros", "sync"] }
