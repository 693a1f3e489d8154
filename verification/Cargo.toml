[package]
name = "filesync_notes"
version = "0.1.0"
edition = "2021"
publish = false

[dependencies]
blake3 = "1"
chrono = "0.4"
filetime = "0.2"
globset = "0.4"
notify = "8"
serde = { version = "1", features = ["derive"] }
serde_json = "1"
tokio = { version = "1", features = ["sync", "time", "rt"] }
uuid = { version = "1", features = ["v4"] }
walkdir = "2"
