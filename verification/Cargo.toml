[package]
name = "scouting_store"
version = "0.1.0"
edition = "2021"
publish = false

[dependencies]
anyhow = "=1.0.104"
axum = "=0.7.9"
axum-extra = { version = "0.9", features = ["cookie"] }
chrono = { version = "=0.4.45", default-features = false, features = ["clock", "std"] }
config = { version = "=0.14.1", default-features = false, features = ["toml"] }
jwt-simple = { version = "0.12", default-features = false, features = ["pure-rust"] }
oauth2 = "4"
reqwest = { version = "=0.12.28", default-features = false, features = ["json", "rustls-tls"] }
serde = { version = "=1.0.229", features = ["derive"] }
serde_json = "=1.0.154"
sha256 = { version = "=1.6.0", default-features = false }
sqlx = { version = "=0.7.4", default-features = false, features = ["runtime-tokio", "sqlite"] }
tokio = { version = "=1.54.1", features = ["full"] }
toml = "=0.8.23"
totp-rs = "5"
tracing = "=0.1.44"
tracing-subscriber = { version = "=0.3.23", features = ["env-filter"] }
uuid = { version = "=1.29.0", features = ["v4", "serde"] }
