[package]
name = "auth"
version = "0.1.0"
edition = "2021"
publish = false

[dependencies]
bcrypt = "=0.19.3"
chrono = "=0.4.45"
uuid = { version = "=1.29.0", features = ["v4"] }
axum = "=0.8.9"
axum-server = { version = "=0.8.0", features = ["tls-rustls"] }
tokio = { version = "=1.54.1", features = ["full"] }
tracing = "=0.1.44"
tracing-appender = "=0.2.5"
tracing-subscriber = { version = "=0.3.23", features = ["env-filter"] }
dotenvy = "=0.15.7"
jsonwebtoken = { version = "=11.1.0", features = ["rust_crypto"] }
rusqlite = "=0.41.1"
serde = { version = "=1.0.229", features = ["derive"] }
serde_json = "=1.0.154"
getrandom = "=0.4.3"
