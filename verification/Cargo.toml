[package]
name = "sukusho"
version = "0.1.0"
edition = "2021"
publish = false

[dependencies]
anyhow = "1"
arrow-array = "=60.0.0"
arrow-schema = "=60.0.0"
chrono = "0.4"
crossbeam-channel = "0.5"
futures = "0.3"
global-hotkey = "*"
log = "0.4"
parking_lot = "0.12"
tokio = { version = "1", features = ["rt", "time"] }
