[package]
name = "warp_events"
version = "0.1.0"
edition = "2021"
publish = false

[dependencies]
anyhow = "1"
chrono = { version = "0.4", default-features = false, features = ["clock", "std"] }
futures = "0.3"
tokio = { version = "1", features = ["macros", "rt", "rt-multi-thread", "time"] }
uuid = { version = "1", features = ["v4"] }
