[package]
name = "dictosaurus"
version = "0.1.0"
edition = "2021"
publish = false

[dependencies]
serde = { version = "1", features = ["derive"] }
serde_json = "1"
regex = "1"
regex-syntax = "0.8"
unicode-casefold = "0.2"
log = "0.4"
once_cell = "1"
tokio = { version = "1", features = ["rt", "sync", "fs", "io-util", "time"] }
futures-util = "0.3"
reqwest = { version = "0.12", default-features = false, features = ["stream", "rustls-tls"] }
