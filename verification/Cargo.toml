[package]
name = "vibesurfer"
version = "0.1.0"
edition = "2021"
publish = false

[dependencies]
serde = { version = "=1.0.229", features = ["derive"] }
serde_json = "=1.0.154"
thiserror = "=2.0.21"
ring = "=0.17.14"
rusqlite = { version = "=0.32.1", features = ["bundled"] }
base64 = "0.22"
