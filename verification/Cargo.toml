[package]
name = "orderbook"
version = "0.1.0"
edition = "2021"
publish = false

[dependencies]
pricelevel = "=0.5.0"
tracing = "0.1"
uuid = { version = "1", features = ["v4"] }
