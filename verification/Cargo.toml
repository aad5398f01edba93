[package]
name = "envs_injector"
version = "0.1.0"
edition = "2021"
publish = false

[dependencies]
gumdrop = "0.8"
xmltree = { version = "0.10", features = ["attribute-order"] }
