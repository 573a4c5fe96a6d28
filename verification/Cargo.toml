[package]
name = "remote_juggler_config"
version = "0.1.0"
edition = "2021"
publish = false

[dependencies]
serde_json = "1"
dirs = "*"
anyhow = "1"
gtk4 = { version = "*", features = ["v4_10"] }
libadwaita = "*"
tracing = "0.1"
tracing-subscriber = "0.3"
