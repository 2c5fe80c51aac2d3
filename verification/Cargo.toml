[package]
name = "cmdx"
version = "0.1.0"
edition = "2021"
publish = false

[dependencies]
fuzzy-matcher = "0.3"
shellexpand = "3"
dirs = "5"
clap = { version = "4", features = ["derive"] }
clap_complete = "4"
colored = "2"
crossterm = "0.28"
ratatui = "0.29"
serde = { version = "1", features = ["derive"] }
serde_json = "1"
thiserror = "1"
toml = "0.8"
