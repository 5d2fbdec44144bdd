[package]
name = "wire_protocol"
version = "0.1.0"
edition = "2021"
publish = false

[dependencies]
bytes = "0.4"
serde_json = "1"
tokio-io = "0.1"
