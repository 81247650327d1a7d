[package]
name = "rally_point_consensus"
version = "0.1.0"
edition = "2021"
publish = false

[dependencies]
parking_lot = "*"
tokio = { version = "1", default-features = false, features = ["sync"] }
tracing = "0.1"
