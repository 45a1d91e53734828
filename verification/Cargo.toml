[package]
name = "rholang"
version = "0.1.0"
edition = "2021"
publish = false

[dependencies]
dashmap = "=6.2.1"
itertools = "=0.14.0"
uuid = { version = "=1.29.0", features = ["v4"] }
rand = "=0.8.8"
