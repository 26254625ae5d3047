[package]
name = "orfile"
version = "0.1.0"
edition = "2021"
publish = false

[dependencies]
serde_json = "=1.0.154"
heck = "=0.5.0"
once_cell = "=1.21.4"
clap = { version = "=4.6.7", features = ["derive", "string"] }
anyhow = "=1.0.104"
serde = { version = "=1.0.229", features = ["derive"] }
tokio = { version = "=1.54.1", features = ["fs", "rt", "macros"] }
