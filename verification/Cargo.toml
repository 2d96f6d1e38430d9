[package]
name = "bx"
version = "0.1.0"
edition = "2021"
publish = false

[dependencies]
regex = "1"
anyhow = "1"
arboard = "3"
crossterm = "0.28"
ratatui = "0.28"
serde = { version = "1", features = ["derive"] }
toml = "0.8"
