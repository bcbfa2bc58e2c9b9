[package]
name = "latency_sim"
version = "0.1.0"
edition = "2021"
publish = false

[dependencies]
anyhow = "1"
thiserror = "1"
tokio = { version = "1", features = ["macros", "process", "rt-multi-thread"] }
tracing = "0.1"
tracing-subscriber = "0.3"
