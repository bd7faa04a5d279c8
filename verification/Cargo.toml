[package]
name = "pretty_log"
version = "0.1.1"
edition = "2021"
publish = false

[dependencies]
serde_json = "1"
regex = "1"
owo-colors = { version = "4", features = ["supports-colors"] }
serde = { version = "1", features = ["derive"] }
serde_yaml = "0.9"
clap = { version = "4", features = ["derive"] }
atty = "0.2"
dirs = "5"
crossterm = "0.28"
ratatui = "0.29"
