[package]
name = "thrum"
version = "0.1.0"
edition = "2021"
publish = false

[dependencies]
chrono = "=0.4.45"
clap = { version = "=4.6.7", features = ["derive"] }
crossterm = "=0.29.0"
dirs = "=7.0.0"
imap = "=2.4.1"
imap-proto = "=0.10.2"
lettre = "=0.11.23"
native-tls = "=0.2.18"
ratatui = "=0.30.2"
serde = { version = "=1.0.229", features = ["derive"] }
toml = "=1.1.7"
