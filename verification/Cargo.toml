[package]
name = "game"
version = "0.1.0"
edition = "2021"
publish = false

[dependencies]
network-tables = { version = "=0.1.3", features = ["client-v4"] }
tokio = { version = "=1.54.1", features = ["rt-multi-thread"] }
