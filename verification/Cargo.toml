[package]
name = "tempo_pool"
version = "0.1.0"
edition = "2021"
publish = false

[dependencies]
alloy-primitives = "=1.7.3"
alloy-sol-types = "=1.7.3"
parking_lot = "0.12"
tokio = { version = "1", features = ["macros", "rt", "sync"] }
tracing = "0.1"
