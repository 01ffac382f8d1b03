[package]
name = "kreta_core"
version = "0.1.0"
edition = "2021"
publish = false

[dependencies]
chrono = "*"
chrono-tz = "*"
serde = { version = "*", features = ["derive"] }
serde_json = "*"
tokio = { version = "*", features = ["rt", "macros", "fs", "sync"] }
anyhow = "*"
base64 = "*"
ics = "*"
uuid = { version = "*", features = ["v4"] }
rmp-serde = "*"
