[package]
name = "pil_condenser"
version = "0.1.0"
edition = "2021"
publish = false

[dependencies]
itertools = "0.10"
schemars = { version = "0.8", features = ["preserve_order"] }
serde = { version = "1", features = ["derive"] }
