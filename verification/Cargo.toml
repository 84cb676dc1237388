[package]
name = "aichat_core"
version = "0.1.0"
edition = "2021"
publish = false

[dependencies]
anyhow = "1"
async-recursion = "1"
chrono = "0.4"
fancy-regex = "0.14"
indexmap = { version = "2", features = ["serde"] }
inquire = "0.7"
mlua = { version = "0.10", features = ["lua54", "vendored"] }
parking_lot = "0.12"
rust-embed = "8"
serde = { version = "1", features = ["derive"] }
serde_json = { version = "1", features = ["preserve_order"] }
serde_yaml = "0.9"
tokio = { version = "1", features = ["rt-multi-thread", "macros", "sync"] }
