[package]
name = "trackly_app"
version = "0.1.0"
edition = "2021"
publish = false

[dependencies]
time = "0.3"
argon2 = { version = "0.5", features = ["std"] }
base64 = "0.22"
csv = "1"
uuid = "1"
serde = { version = "1", features = ["derive"] }
serde_json = "1"
rusqlite = { version = "0.32", features = ["bundled"] }
