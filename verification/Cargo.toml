[package]
name = "obelisk"
version = "0.1.0"
edition = "2021"
publish = false

[dependencies]
byteorder = "1"
futures = "0.3"
rand = "0.8"
serde = { version = "1", features = ["derive"] }
serde_json = "1"
tokio = { version = "1", features = ["io-util", "net", "rt"] }
uuid = { version = "1", features = ["v5"] }
