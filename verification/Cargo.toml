[package]
name = "flist"
version = "0.1.0"
edition = "2021"
publish = false

[dependencies]
chrono = "0.4"
clap = { version = "4", features = ["derive"] }
cli-clipboard = "0.4"
crossterm = "0.27"
ratatui = "0.24"
reqwest = { version = "0.11", default-features = false, features = ["blocking"] }
scraper = "0.18"
serde = { version = "1", features = ["derive"] }
serde_json = "1"
toml = "0.8"
