[package]
name = "copanion"
version = "0.1.0"
edition = "2021"
publish = false

[dependencies]
anyhow = "=1.0.104"
arboard = { version = "=3.7.0", default-features = false }
base64 = "=0.22.1"
chrono = "=0.4.45"
clap = { version = "=4.6.7", features = ["derive"] }
crossterm = "=0.29.0"
directories = "=6.0.0"
getrandom = "=0.4.3"
git2 = { version = "=0.21.0", default-features = false }
ignore = "=0.4.34"
nucleo-matcher = "=0.3.1"
ratatui = "=0.30.2"
serde = { version = "=1.0.229", features = ["derive"] }
serde_json = "=1.0.154"
syntect = "=5.3.0"
toml = "=1.1.8"
two-face = "=0.5.2"
unicode-width = "=0.2.3"
uuid = { version = "=1.29.0", features = ["v4"] }

[dev-dependencies]
tempfile = "=3.27.0"
