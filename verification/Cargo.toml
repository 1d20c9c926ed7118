[package]
name = "aibundle"
version = "0.7.7"
edition = "2021"
publish = false

[dependencies]
regex = "=1.13.1"
serde_json = "=1.0.154"
glob = "=0.3.4"
serde = { version = "=1.0.229", features = ["derive"] }
toml = "=1.1.8"
clap = { version = "=4.6.7", features = ["derive"] }
ratatui = "=0.30.2"
ignore = "=0.4.34"
