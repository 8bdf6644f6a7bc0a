[package]
name = "aidev"
version = "0.1.0"
edition = "2021"
publish = false

[dependencies]
crossterm = "0.28"
indexmap = { version = "2", features = ["serde"] }
libc = "0.2"
ratatui = "0.29"
serde = { version = "1", features = ["derive"] }
serde_json = "1"
toml = "0.8"
