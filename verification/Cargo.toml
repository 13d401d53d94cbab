[package]
name = "pravega_client"
version = "0.1.0"
edition = "2021"
publish = false

[dependencies]
sha2 = "*"
uuid = { version = "*", features = ["v4"] }
tokio = { version = "*", features = ["rt", "net", "sync", "io-util", "time", "macros"] }
