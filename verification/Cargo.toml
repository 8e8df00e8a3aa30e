[package]
name = "ivac"
version = "0.1.0"
edition = "2021"
publish = false

[dependencies]
serde = { version = "1", features = ["derive"] }
serde_json = "1"
skrifa = "*"
base64 = "0.22"
anyhow = "1"
thiserror = "*"
schemars = "*"
tracing-subscriber = "0.3"
