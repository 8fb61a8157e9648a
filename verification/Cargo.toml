[package]
name = "project_manager"
version = "0.1.0"
edition = "2021"
publish = false

[dependencies]
serde_yaml = "*"
serde_qs = "*"
camino = "*"
dunce = "*"
home = "*"
color-eyre = "*"
