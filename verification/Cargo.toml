[package]
name = "blackbox"
version = "0.1.0"
edition = "2021"
publish = false

[dependencies]
anyhow = "1"
chrono = { version = "=0.4.45", features = ["serde"] }
colored = "2"
crossterm = "0.28"
daemonize = "0.5"
env_logger = "0.11"
etcetera = "0.8"
log = "0.4"
nix = { version = "0.29", features = ["signal", "process"] }
ratatui = "0.29"
rusqlite = { version = "0.32", features = ["bundled"] }
serde = { version = "1", features = ["derive"] }
serde_json = "=1.0.154"
signal-hook = "0.3"

[dev-dependencies]
tempfile = "3"
