[package]
name = "event_log"
version = "0.1.0"
edition = "2021"
publish = false

[dependencies]
event-listener = "2"
tokio = { version = "1", features = ["sync", "time", "rt", "rt-multi-thread"] }
