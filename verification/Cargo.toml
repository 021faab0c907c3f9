[package]
name = "terminal_stickers"
version = "0.1.0"
edition = "2021"
publish = false

[dependencies]
anyhow = "1"
clap = { version = "4", features = ["derive"] }
crossterm = "0.28"
directories = "5"
image = { version = "0.25", default-features = false, features = ["png", "jpeg", "webp", "gif", "pnm"] }
ratatui = "0.29"
serde = { version = "1", features = ["derive"] }
toml = "0.8"
walkdir = "2"
