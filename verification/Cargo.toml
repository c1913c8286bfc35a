[package]
name = "task_scheduler"
version = "0.1.0"
edition = "2021"
publish = false

[dependencies]
keyring = "3"
serde = { version = "1", features = ["derive"] }
serde_json = "1"
tauri = { version = "2", default-features = false }
