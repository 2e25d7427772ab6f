[package]
name = "melsec_mc"
version = "0.1.0"
edition = "2021"
publish = false

[dependencies]
log = "0.4"
once_cell = "1"
serde = { version = "1", features = ["derive"] }
serde_json = "1"
thiserror = "1"
tokio = { version = "1", features = ["net", "io-util", "time", "sync", "rt"] }
toml = "0.8"
tracing = "0.1"
