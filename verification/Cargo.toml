[package]
name = "kvs"
version = "0.1.0"
edition = "2021"
publish = false

[dependencies]
ron = "*"
serde = { version = "1", features = ["derive"] }
failure = "0.1"
clap = "2"
