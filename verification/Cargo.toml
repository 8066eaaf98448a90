[package]
name = "orderbook"
version = "0.1.0"
edition = "2021"
publish = false

[dependencies]
csv = "=1.4.0"
serde = { version = "*", features = ["derive"] }
serde_json = "*"
thiserror = "*"
toml = "*"
tokio = { version = "*", features = ["full"] }
axum = { version = "*", features = ["ws"] }
tower = "*"
tower-http = { version = "*", features = ["cors"] }
futures-util = "*"
tracing = "=0.1.44"
tracing-subscriber = { version = "*", features = ["env-filter"] }
clap = { version = "*", features = ["derive"] }
metrics-exporter-prometheus = "*"
sysinfo = "*"
