[package]
name = "annual_training"
version = "0.1.0"
edition = "2021"
publish = false

[dependencies]
axum = "0.8"
tokio = { version = "1", features = ["full"] }
serde = { version = "1", features = ["derive"] }
serde_json = "1"
sha2 = "0.10"
chrono = "0.4"
uuid = { version = "1", features = ["v4"] }
flate2 = "1"
image = { version = "0.25", default-features = false, features = ["png"] }
webbrowser = "1"
