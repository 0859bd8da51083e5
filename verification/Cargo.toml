[package]
name = "protocol"
version = "0.1.0"
edition = "2021"
publish = false

[dependencies]
crc = "3"
futures = "0.3"
rand = "0.8"
rustc-hash = "2"
tokio = { version = "1", features = ["macros", "net", "rt", "rt-multi-thread", "sync", "time"] }
tokio-util = { version = "0.7", features = ["time"] }
