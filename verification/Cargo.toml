[package]
name = "kimaitray"
version = "0.1.0"
edition = "2021"
publish = false

[dependencies]
serde = { version = "1", features = ["derive"] }
serde_json = "1"
log = "0.4"
tempfile = "3"
glib = "0.18"
tokio = { version = "1", features = ["time", "sync", "rt"] }
