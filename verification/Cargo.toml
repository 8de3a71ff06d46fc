[package]
name = "audio_workflow"
version = "0.1.0"
edition = "2021"
publish = false

[dependencies]
base64 = "*"
serde_json = "*"
serde = { version = "*", features = ["derive"] }
chrono = "*"
reqwest = { version = "*", default-features = false, features = ["blocking", "json"] }
