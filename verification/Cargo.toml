[package]
name = "nebula_backbone"
version = "0.1.0"
edition = "2021"
publish = false

[dependencies]
miracl_core = { version = "=2.7.0", features = ["bn462"] }
