[package]
name = "libreoffice_collab"
version = "0.1.0"
edition = "2021"
publish = false

[dependencies]
rand = "0.8"
chrono = "0.4"
url = "2"
serde = { version = "1", features = ["derive"] }
serde_json = "1"
axum = "0.7"
tokio = { version = "1", features = ["full"] }
anyhow = "1"
mdns-sd = "0.11"
reqwest = { version = "0.12", default-features = false, features = ["json"] }
log = "0.4"
