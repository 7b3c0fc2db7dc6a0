[package]
name = "rapid_net"
version = "0.1.0"
edition = "2021"
publish = false

[dependencies]
bytes = "1"
uuid = { version = "1", features = ["v4"] }
tokio = { version = "1", features = ["net", "io-util", "sync", "time", "rt", "rt-multi-thread", "macros"] }
dashmap = "6"
futures = "0.3"
log = "0.4"
serde = { version = "1", features = ["derive"] }
thiserror = "2"
