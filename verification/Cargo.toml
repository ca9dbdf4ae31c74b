[package]
name = "limbo_core"
version = "0.1.0"
edition = "2021"
publish = false

[dependencies]
bytes = "1"
uuid = "1"
tokio = { version = "1", features = ["full"] }
crossbeam = "0.8"
log = "0.4"
log4rs = "1"
