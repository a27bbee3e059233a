[package]
name = "registry"
version = "0.1.0"
edition = "2021"
publish = false

[dependencies]
clap = "2"
humantime = "2"
serde_yaml = "0.9"
