[package]
name = "amm_core"
version = "0.1.0"
edition = "2021"
publish = false

[dependencies]
primitive-types = "*"
serde = { version = "*", features = ["derive"] }
serde_json = "*"
