[package]
name = "session_history"
version = "0.1.0"
edition = "2021"
publish = false

[dependencies]
base64 = "0.22"
chrono = "0.4"
serde = { version = "1", features = ["derive"] }
serde_json = "1"
urlencoding = "2"
rusqlite = { version = "0.32", features = ["bundled"] }
