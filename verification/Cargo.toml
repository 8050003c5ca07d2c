[package]
name = "tsink_server"
version = "0.1.0"
edition = "2021"
publish = false

[dependencies]
prost = "=0.14.4"
serde = { version = "=1.0.229", features = ["derive"] }
serde_json = { version = "=1.0.154", features = ["raw_value"] }
snap = "=1.1.2"
tokio = { version = "=1.54.1", features = ["rt", "rt-multi-thread", "sync", "time"] }
