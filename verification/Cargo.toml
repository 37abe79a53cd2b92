[package]
name = "redis_me"
version = "0.1.0"
edition = "2021"
publish = false

[dependencies]
base64 = "=0.22.1"
serde_json = "=1.0.154"
serde = { version = "=1.0.229", features = ["derive"] }
redis = { version = "=1.8.1", features = ["cluster", "json"] }
anyhow = "=1.0.104"

[dev-dependencies]
