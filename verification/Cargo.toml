[package]
name = "calyx_interp"
version = "0.1.0"
edition = "2021"
publish = false

[dependencies]
fraction = { version = "0.11", features = ["with-serde-support"] }
itertools = "0.11"
serde = { version = "1.0", features = ["derive"] }
serde_json = "1.0"
