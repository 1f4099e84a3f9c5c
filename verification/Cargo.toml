[package]
name = "yoyo"
version = "0.1.0"
edition = "2021"
publish = false

[dependencies]
yoagent = "*"
serde_json = "1"
tokio = { version = "1", features = ["macros", "rt-multi-thread", "signal", "sync", "time"] }
