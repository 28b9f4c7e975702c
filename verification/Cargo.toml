[package]
name = "sim7000"
version = "0.1.0"
edition = "2021"
publish = false

[dependencies]
heapless = "0.7"
embedded-time = "0.12"
embassy-sync = "*"
futures-util = { version = "0.3", default-features = false }
