[package]
name = "prism_ipc"
version = "0.1.0"
edition = "2021"
publish = false

[dependencies]
tokio = { version = "1", features = ["sync", "rt", "rt-multi-thread", "process", "io-util", "time", "macros"] }
serde = { version = "1", features = ["derive"] }
serde_json = "1"
fs2 = "0.4"

[dev-dependencies]
tempfile = "3"
