[package]
name = "minigames"
version = "0.1.0"
edition = "2021"
publish = false

[dependencies]
rand = "=0.8.8"
crossterm = "=0.28.1"
ratatui = "=0.29.0"
chrono = { version = "=0.4.45", features = ["serde"] }
serde = { version = "=1.0.229", features = ["derive"] }
image = { version = "=0.25.10", default-features = false, features = ["png"] }
