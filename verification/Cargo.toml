[package]
name = "lute_core"
version = "0.1.0"
edition = "2021"
publish = false

[dependencies]
anyhow = "=1.0.104"
chrono = "=0.4.45"
iter_tools = "=0.50.0"
rayon = "=1.12.0"
redis = "=1.8.0"
rustis = { version = "=0.27.2", features = ["pool"] }
serde = { version = "=1.0.229", features = ["derive"] }
serde_json = "=1.0.154"
tokio = { version = "=1.54.1", features = ["sync", "rt", "time"] }
tracing = "=0.1.44"
ulid = { version = "=1.2.1", features = ["serde"] }
