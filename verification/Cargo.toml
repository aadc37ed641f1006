[package]
name = "healer"
version = "0.1.0"
edition = "2021"
publish = false

[dependencies]
rand = "0.7"
bitset-fixed = "0.1"
ndarray = "0.15"
circular-queue = "0.2"
chrono = "0.4"
serde = { version = "1", features = ["derive"] }
serde_json = "1"
bincode = "1"
exitcode = "1"
tokio = { version = "1", features = ["full"] }
