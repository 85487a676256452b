[package]
name = "tecindo"
version = "0.1.0"
edition = "2021"
publish = false

[dependencies]
slug = "0.1"
uuid = { version = "1", features = ["v7"] }
sha2 = "0.10"
serde = { version = "1", features = ["derive"] }
serde_json = "1"
thiserror = "2"
anyhow = "1"
chrono = "0.4"
dotenvy = "0.15"
jsonwebtoken = "9"
argon2 = "0.5"
axum = "0.8"
tokio = { version = "1", features = ["rt-multi-thread", "macros", "fs", "net", "sync", "process", "time"] }
tower-http = { version = "0.6", features = ["cors", "fs", "trace"] }
tracing = "0.1"
tracing-subscriber = { version = "0.3", features = ["env-filter"] }
sqlx = { version = "0.8", default-features = false, features = ["sqlite", "runtime-tokio"] }
