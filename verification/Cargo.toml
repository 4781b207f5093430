[package]
name = "session_auth"
version = "0.1.0"
edition = "2021"
publish = false

[dependencies]
anyhow = "1"
async-recursion = "1"
rocket = "0.5"
serde_json = "1"
sqlx = { version = "0.8", default-features = false, features = ["postgres", "runtime-tokio"] }
