[package]
name = "quoridor"
version = "0.1.0"
edition = "2021"
publish = false

[dependencies]
rand = "0.8"
chrono = "0.4"
axum = { version = "0.6", features = ["ws"] }
tokio = { version = "1", features = ["full"] }
futures = "0.3"
serde = { version = "1", features = ["derive"] }
serde_json = "1"
tower-cookies = "0.9"
tower-http = { version = "0.4", features = ["fs"] }
tracing-subscriber = { version = "0.3", features = ["env-filter"] }
sled = "0.34"
bcrypt = "0.15"
regex = "1"
