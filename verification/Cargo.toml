[package]
name = "kaneo_core"
version = "0.1.0"
edition = "2021"
publish = false

[dependencies]
axum = "0.8"
serde = { version = "1", features = ["derive"] }
serde_json = "1"
tokio = { version = "1", features = ["net", "rt"] }
tower-http = { version = "0.6", features = ["fs"] }
url = "2"
uuid = { version = "1", features = ["v4"] }
