[package]
name = "mc_status_probe"
version = "0.1.0"
edition = "2021"
publish = false

[dependencies]
serde = { version = "1", features = ["derive"] }
serde_json = "1"
thiserror = "1"
tokio = { version = "1", features = ["net", "time", "io-util", "rt", "rt-multi-thread", "macros"] }
