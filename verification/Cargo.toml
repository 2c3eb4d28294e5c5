[package]
name = "card"
version = "0.1.0"
edition = "2021"
publish = false

[dependencies]
md5 = "0.7"
urlencoding = "2"
bcrypt = "0.15"
rand = "0.8"
chrono = "0.4"
rusqlite = { version = "0.32", features = ["bundled"] }
axum = "0.8"
tokio = { version = "1", features = ["full"] }
tower-http = { version = "0.6", features = ["fs"] }
serde = { version = "1", features = ["derive"] }
serde_json = "1"
tracing = "0.1"
tracing-subscriber = "0.3"
lettre = { version = "0.11", default-features = false, features = ["builder", "smtp-transport", "hostname", "tokio1", "tokio1-rustls-tls"] }
askama = "0.12"
