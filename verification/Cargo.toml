[package]
name = "env_overlay"
version = "0.1.0"
edition = "2021"
publish = false

[dependencies]
log = "0.4"
serde = "1"
serde_yaml = "0.9"
thiserror = "1"
