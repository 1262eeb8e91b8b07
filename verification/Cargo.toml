[package]
name = "crdt"
version = "0.1.0"
edition = "2021"
publish = false

[dependencies]

[dev-dependencies]
uuid = { version = "1", features = ["v4"] }
