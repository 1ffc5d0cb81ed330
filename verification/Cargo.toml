[package]
name = "contextdock"
version = "0.2.0"
edition = "2021"
publish = false

[dependencies]
chrono = "=0.4.45"
serde = { version = "=1.0.229", features = ["derive"] }
serde_json = "=1.0.154"
log = "=0.4.35"
tauri = { version = "=2.12.5", default-features = false, features = ["wry"] }
tauri-plugin-log = { version = "=2.10.1", default-features = false }
