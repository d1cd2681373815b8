[package]
name = "kudos"
version = "0.1.0"
edition = "2021"
publish = false

[dependencies]
tracing = "*"
tracing-subscriber = { version = "*", features = ["json", "time"] }
tracing-web = "*"
worker = "*"
