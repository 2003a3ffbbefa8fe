[package]
name = "gen2"
version = "0.1.0"
edition = "2021"
publish = false

[dependencies]
dirs = "=7.0.0"
futures = "=0.3.34"
hf-hub = { version = "=1.0.0", features = ["blocking"] }
regex = "=1.13.1"
schemars = "1"
serde = { version = "=1.0.229", features = ["derive"] }
serde_json = "=1.0.154"
tokio = { version = "=1.54.1", features = ["rt", "sync"] }
uuid = { version = "=1.29.0", features = ["v4"] }
