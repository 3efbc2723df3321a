[package]
name = "subterm"
version = "0.0.1"
edition = "2021"
publish = false

[dependencies]
bstr = "1"
tokio = { version = "1", features = ["io-util", "process", "rt", "sync", "time"] }
tracing = { version = "0.1", default-features = false, features = ["std"] }
