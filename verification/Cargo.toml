[package]
name = "drawer_core"
version = "0.1.0"
edition = "2021"
publish = false

[dependencies]
serde_json = "=1.0.151"
jsonwebtoken = { version = "=11.1.0", features = ["rust_crypto"] }
argon2 = "=0.6.0"
serde = "*"
tokio = { version = "*", features = ["full"] }
tokio-tungstenite = "*"
tokio-stream = "*"
futures-util = "*"
sqlx = { version = "*", default-features = false, features = ["runtime-tokio", "sqlite"] }
axum = "*"
tower-http = { version = "*", features = ["fs", "cors"] }
