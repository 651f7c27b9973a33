[package]
name = "iforgor"
version = "0.1.0"
edition = "2021"
publish = false

[dependencies]
rustyline = "10"

[dev-dependencies]
serde_json = "*"
