[package]
name = "sqlite_access"
version = "0.1.0"
edition = "2021"
publish = false

[dependencies]
indexmap = { version = "2", features = ["serde"] }
sqlx = { version = "0.8", default-features = false, features = ["sqlite", "runtime-tokio", "json"] }
serde = { version = "1", features = ["derive"] }
serde_json = "1"
tokio = { version = "1", features = ["sync", "rt", "rt-multi-thread"] }
log = "0.4"
