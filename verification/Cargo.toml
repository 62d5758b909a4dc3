[package]
name = "waiter_manager"
version = "0.1.0"
edition = "2021"
publish = false

[dependencies]
futures = "0.1"
prometheus = { version = "0.13", default-features = false }
tokio-core = "0.1"
tokio-timer = "0.2"
