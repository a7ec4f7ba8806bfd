[package]
name = "skadi"
version = "0.1.0"
edition = "2021"
publish = false

[dependencies]
serde = { version = "*", features = ["derive"] }
serde_json = "*"
dirs = "*"
tokio = { version = "*", features = ["sync", "macros", "rt-multi-thread", "net", "io-util", "process", "fs"] }
axum = { version = "*", features = ["ws"] }
