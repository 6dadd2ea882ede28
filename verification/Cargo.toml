[package]
name = "flashy-factory"
version = "0.1.0"
edition = "2021"
publish = false

[dependencies]
anyhow = "1"
async-trait = "0.1"
humantime = "2"
serde = { version = "1", features = ["derive"] }
tokio = { version = "1", features = ["process", "time", "macros", "rt-multi-thread", "sync"] }
tokio-util = "0.7"
