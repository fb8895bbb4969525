[package]
name = "dynamic_domain_set"
version = "0.1.0"
edition = "2021"
publish = false

[dependencies]
arc-swap = "1"
regex = "1"
tokio = { version = "1", features = ["rt", "sync", "time", "macros"] }
tracing = "0.1"
