[package]
name = "layered_cache"
version = "0.1.0"
edition = "2021"
publish = false

[dependencies]
anyhow = "=1.0.104"
async-trait = "=0.1.92"
chrono = { version = "=0.4.45", features = ["serde"] }
governor = "=0.6.3"
serde = { version = "=1.0.229", features = ["derive"] }
serde_json = "=1.0.154"
tokio = { version = "=1.54.1", features = ["sync", "macros", "rt-multi-thread", "time"] }
tower_governor = "=0.3.2"
tracing = "=0.1.44"
uuid = { version = "=1.29.0", features = ["v4"] }
