[package]
name = "phira_mp_plugin"
version = "0.1.0"
edition = "2021"
publish = false

[dependencies]
petgraph = "0.6"
serde_json = "1"
serde = { version = "1", features = ["derive"] }
chrono = "0.4"
regex = "1"
parking_lot = "0.12"
tokio = { version = "1", features = ["sync", "time", "rt", "macros"] }
notify = "6"
tracing = "0.1"
toml = "0.8"
thiserror = "1"
config = { version = "0.13", default-features = false, features = ["toml"] }
