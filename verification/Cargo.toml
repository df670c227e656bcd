[package]
name = "moli"
version = "0.1.0"
edition = "2021"
publish = false

[dependencies]
anyhow = "*"
clap = "*"
inquire = "*"
serde = { version = "*", features = ["derive"] }
serde_yaml = "*"
