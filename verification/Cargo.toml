[package]
name = "upload_manager"
version = "0.1.0"
edition = "2021"
publish = false

[dependencies]
axum = { version = "0.7", features = ["multipart"] }
crc32fast = "1"
dotenvy = "0.15"
eyre = "0.6"
hex = "0.4"
rand = "0.8"
serde = { version = "1", features = ["derive"] }
sqlx = { version = "0.7", default-features = false, features = ["runtime-tokio", "sqlite"] }
tokio = { version = "1", features = ["full"] }
tower = { version = "0.4", features = ["util"] }
tower-http = { version = "0.5", features = ["cors", "fs", "limit", "trace"] }
tracing = "0.1"
tracing-subscriber = "0.3"
