[package]
name = "saturn-cli"
version = "0.1.0"
edition = "2021"
publish = false

[dependencies]
anyhow = "1"
async-trait = "0.1"
chrono = "0.4"
chrono-tz = "0.8"
ciborium = "0.2"
clap = { version = "4", features = ["derive"] }
crossterm = "0.26"
dirs = "*"
fancy-duration = { version = "*", features = ["chrono", "serde"] }
gcal = "*"
lazy_static = "1"
nix = "*"
notify-rust = "4"
ratatui = "0.22"
serde = { version = "1", features = ["derive"] }
serde_json = "1"
serde_yaml = "0.9"
tempfile = "3"
tokio = { version = "1", features = ["macros", "rt-multi-thread", "sync", "time", "process"] }
ttygrid = "*"
