[package]
name = "policy-dns"
version = "0.1.0"
edition = "2021"
publish = false

[dependencies]
futures = "0.3"
ipnet = "2"
miette = "7"
tokio = { version = "1", features = ["io-util", "net", "rt", "sync", "time"] }
tracing = "0.1"
