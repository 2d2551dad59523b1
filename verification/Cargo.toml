[package]
name = "concurrency"
version = "0.1.0"
edition = "2021"
publish = false

[dependencies]
anyhow = "1"
dashmap = "5.5"
oneshot = "0.1"
