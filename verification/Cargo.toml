[package]
name = "config_store"
version = "0.1.0"
edition = "2021"
publish = false

[dependencies]
once_cell = "1"
serde = "1"
serde_yaml = "0.9"
