[package]
name = "typy"
version = "0.1.0"
edition = "2021"
publish = false

[dependencies]
anyhow = "=1.0.104"
clap = { version = "=4.6.7", features = ["derive"] }
comfy-table = "=7.2.2"
crossterm = "=0.28.1"
dirs = "=5.0.1"
lazy_static = "=1.5.1"
rand = "=0.9.5"
reqwest = { version = "=0.12.28", default-features = false, features = ["blocking", "rustls-tls"] }
serde = { version = "=1.0.229", features = ["derive"] }
serde_json = "=1.0.154"
toml = "=0.8.23"
tui = "=0.19.0"
