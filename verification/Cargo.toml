[package]
name = "deckctl"
version = "0.1.0"
edition = "2021"
publish = false

[dependencies]
anyhow = "*"
hidapi = "*"
serde = { version = "*", features = ["derive"] }
serde_yml = "*"
