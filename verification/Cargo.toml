[package]
name = "wows_toolkit"
version = "0.1.0"
edition = "2021"
publish = false

[dependencies]
chrono = "0.4"
notify = "*"
parking_lot = "*"
serde = { version = "1", features = ["derive"] }
serde_json = "1"
wows_replays = "*"
