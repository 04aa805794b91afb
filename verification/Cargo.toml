[package]
name = "phi_telemetry"
version = "0.1.0"
edition = "2021"
publish = false

[dependencies]
agent-base = "*"
anyhow = "1"
chrono = "0.4"
serde = { version = "1", features = ["derive"] }
serde_json = "1"
tokio = { version = "1", features = ["rt", "rt-multi-thread", "sync", "macros", "time"] }
tracing = "0.1"
