[package]
name = "planning_poker"
version = "0.1.0"
edition = "2021"
publish = false

[dependencies]
uuid = { version = "=1.27.0", features = ["v4"] }
axum = "=0.8.9"
serde = { version = "=1.0.229", features = ["derive"] }
socketioxide = { version = "=0.18.7", features = ["state", "tracing"] }
tokio = { version = "=1.53.2", features = ["full"] }
tower = { version = "=0.5.3", features = ["util"] }
tower-http = { version = "=0.7.1", features = ["cors", "fs", "set-header", "trace"] }
tracing = "=0.1.44"
tracing-subscriber = "=0.3.23"
