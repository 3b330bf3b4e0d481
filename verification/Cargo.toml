[package]
name = "frugal"
version = "0.1.0"
edition = "2021"
publish = false

[dependencies]
sha2 = "*"
serde_json = "*"
serde = { version = "*", features = ["derive"] }
anyhow = "*"
rusqlite = { version = "*", features = ["bundled"] }
chrono = "*"
dirs = "*"
clap = { version = "*", features = ["derive"] }
crossterm = "*"
ratatui = "*"
