[package]
name = "record_tracker"
version = "0.1.0"
edition = "2021"
publish = false

[dependencies]
chrono = "=0.4.45"
axum = "=0.6.20"
tokio = { version = "=1.53.2", features = ["rt-multi-thread", "macros", "net"] }
tower-http = { version = "=0.4.4", features = ["fs"] }
serde = { version = "=1.0.229", features = ["derive"] }
