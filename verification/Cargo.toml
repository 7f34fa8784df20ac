[package]
name = "zumble"
version = "0.1.0"
edition = "2021"
publish = false

[dependencies]
anyhow = "1"
byteorder = "1"
bytes = "1"
lazy_static = "1"
prometheus = "0.13"
protobuf = "2"
scc = "2"
thiserror = "1"
tokio = { version = "1", features = ["full"] }
tokio-util = "0.7"
tracing = "0.1"
