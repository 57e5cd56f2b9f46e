[package]
name = "otter"
version = "0.1.0"
edition = "2021"
publish = false

[dependencies]
unicode-width = "0.2"
crossterm = "0.28"
ratatui = "0.29"
serde = { version = "1", features = ["derive"] }
serde_json = "1"
tempfile = "3"
nix = { version = "0.29", features = ["signal"] }
anyhow = "1"
thiserror = "2"
rfd = "0.15"
