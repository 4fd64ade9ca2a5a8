[package]
name = "task_maker_format"
version = "0.1.0"
edition = "2021"
publish = false

[dependencies]
failure = "0.1"
itertools = "*"
serde = { version = "1", features = ["derive"] }
serde_json = "1"
