[package]
name = "shuttle-christmas"
version = "0.1.0"
edition = "2021"
publish = false

[dependencies]
axum = { version = "=0.7.9", features = ["multipart", "ws"] }
base64 = "=0.21.7"
chrono = "=0.4.45"
dotenv = "0.15"
html-escape = "=0.2.15"
image = { version = "=0.24.9", default-features = false, features = ["png"] }
regex = "=1.13.1"
reqwest = { version = "0.11", default-features = false, features = ["rustls-tls"] }
serde = { version = "1", features = ["derive"] }
serde_json = "1"
sha2 = "=0.10.9"
shuttle-axum = { version = "=0.35.2", default-features = false, features = ["axum-0-7"] }
shuttle-runtime = "=0.35.2"
shuttle-shared-db = { version = "=0.35.2", features = ["postgres"] }
sqlx = { version = "=0.7.4", default-features = false, features = ["runtime-tokio-rustls", "postgres"] }
tokio = { version = "1", features = ["fs", "macros", "rt-multi-thread", "sync", "time"] }
ulid = "=1.2.1"
uuid = { version = "1", features = ["serde"] }
