[package]
name = "ttl_store"
version = "0.1.0"
edition = "2021"
publish = false

[dependencies]
bson = "2"
indexmap = "2"
parking_lot = "0.12"
tokio = { version = "1", features = ["sync", "time", "rt", "macros"] }
