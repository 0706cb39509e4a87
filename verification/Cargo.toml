[package]
name = "async_events_emitter"
version = "0.1.0"
edition = "2021"
publish = false

[dependencies]
dashmap = "5.5"
tokio = { version = "1", features = ["rt-multi-thread", "macros", "sync", "time"] }
async-trait = "0.1"
