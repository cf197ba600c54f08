[package]
name = "mast"
version = "0.1.0"
edition = "2021"
publish = false

[dependencies]
argon2 = { version = "=0.5.3", features = ["std"] }
axum = "=0.8.9"
chrono = "=0.4.45"
dotenvy = "=0.15.7"
git2 = "=0.21.0"
http = "=1.5.0"
rusqlite = { version = "=0.41.1", features = ["bundled"] }
serde = { version = "=1.0.229", features = ["derive"] }
serde_json = "=1.0.154"
tokio = { version = "=1.54.1", features = ["full"] }
toml = "=1.1.8"
tower-sessions = "=0.15.0"
tracing-subscriber = "=0.3.23"
