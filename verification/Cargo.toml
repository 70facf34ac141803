[package]
name = "nano_redis"
version = "0.1.0"
edition = "2021"
publish = false

[dependencies]
atoi = "2"
bytes = "1"
tokio = { version = "1", features = ["full"] }
tracing = "0.1"
tracing-subscriber = "0.3"
clap = { version = "4", features = ["derive"] }
bincode = "1"
serde = { version = "1", features = ["derive"] }
