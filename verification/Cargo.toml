[package]
name = "relay"
version = "0.1.0"
edition = "2021"
publish = false

[dependencies]
uuid = { version = "=1.29.0", features = ["serde"] }
serde = { version = "=1.0.229", features = ["derive"] }
serde_json = "=1.0.154"
serde_yaml = "=0.9.34"
chrono = { version = "=0.4.45", features = ["serde"] }
num_enum = "=0.7.6"
memoria = "=0.1.0"
tikv-jemallocator = "=0.7.0"
reqwest = { version = "=0.11.27", default-features = false, features = ["blocking"] }
tokio = { version = "=1.54.1", features = ["rt", "rt-multi-thread", "sync"] }
axum = "=0.6.20"
hyper = "=0.14.32"
lazy_static = "=1.5.1"
no_deadlocks = "=1.3.2"
