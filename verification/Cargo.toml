[package]
name = "yapstack"
version = "0.1.0"
edition = "2021"
publish = false

[dependencies]
sha2 = "0.10"
percent-encoding = "2"
rusqlite = { version = "0.32", features = ["bundled"] }
sqlite-vec = "0.1"
serde = { version = "1", features = ["derive"] }
serde_json = "1"
tokio = { version = "1", features = ["sync", "rt", "rt-multi-thread", "time", "macros"] }
futures-util = "0.3"
chrono = "0.4"
hound = "3"
tracing = "0.1"
