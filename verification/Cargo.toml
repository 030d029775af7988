[package]
name = "pubsub_rs"
version = "0.1.0"
edition = "2021"
publish = false

[dependencies]
atomic = "0.6"
bytemuck = "1"
multimap = "0.10"
rand = "0.9"
tokio = { version = "1", features = ["rt", "rt-multi-thread", "macros", "sync", "time"] }
