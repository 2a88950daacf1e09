[package]
name = "auth_core"
version = "0.1.0"
edition = "2021"
publish = false

[dependencies]
uuid = { version = "1", features = ["v4"] }
axum = "=0.6.20"
tokio = { version = "1", features = ["macros", "rt-multi-thread"] }
serde_json = "1"
tower-http = { version = "0.4", features = ["cors"] }
dotenv = "0.15"
