[package]
name = "hitman"
version = "0.1.0"
edition = "2021"
publish = false

[dependencies]
anyhow = "=1.0.104"
chrono = "=0.4.45"
clap = { version = "=4.6.7", features = ["derive"] }
cookie = "=0.18.2"
crossterm = "0.27"
fuzzy-matcher = "=0.3.7"
futures = "=0.3.34"
graphql-parser = "=0.4.1"
httparse = "=1.10.1"
inquire = { version = "=0.7.5", features = ["date"] }
jsonpath = "=0.1.1"
log = "=0.4.35"
minijinja = "=2.24.0"
notify = "=6.1.1"
ratatui = "0.26"
reqwest = { version = "=0.12.28", default-features = false, features = ["json", "cookies", "stream", "rustls-tls"] }
serde_json = "=1.0.154"
spinoff = "=0.8.0"
termcolor = "=1.4.1"
tokio = { version = "=1.54.1", features = ["macros", "rt-multi-thread", "sync", "time"] }
toml = "=0.8.23"
tui-input = "0.8"
walkdir = "=2.5.0"
