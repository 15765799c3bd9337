[package]
name = "gitbottle"
version = "0.1.0"
edition = "2021"
publish = false

[dependencies]
anyhow = "*"
inquire = "*"
serde = { version = "*", features = ["derive"] }
serde_yaml = "*"
