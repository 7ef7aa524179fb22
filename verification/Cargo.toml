[package]
name = "cluster_core"
version = "0.1.0"
edition = "2021"
publish = false

[dependencies]
prometheus-parse = "=0.2.5"
serde_json = "=1.0.151"
serde = { version = "=1.0.229", features = ["derive"] }
chrono = { version = "=0.4.45", features = ["serde"] }
url = "=2.5.8"
tokio = { version = "=1.53.2", features = ["rt", "sync", "time", "macros"] }
futures = "=0.3.34"
clokwerk = "=0.4.0"
