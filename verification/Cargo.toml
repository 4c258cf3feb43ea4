[package]
name = "lissue"
version = "0.1.0"
edition = "2021"
publish = false

[dependencies]
anyhow = "1"
chrono = { version = "0.4", features = ["serde"] }
clap = { version = "4", features = ["derive"] }
crossterm = "0.28"
fuzzy-matcher = "0.3"
lexiclean = "*"
ratatui = "0.29"
rusqlite = { version = "*", features = ["chrono"] }
serde = { version = "1", features = ["derive"] }
serde_json = "1"
serde_yaml = "0.9"
tempfile = "3"
termimad = "*"
uuid = { version = "1", features = ["v4", "serde"] }
walkdir = "2"
