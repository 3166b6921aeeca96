[package]
name = "langcodec-cli"
version = "0.9.1"
edition = "2021"
publish = false

[dependencies]
serde = { version = "1", features = ["derive"] }
serde_json = "1"
serde_yaml = "0.9"
toml = "0.8"
clap = { version = "4", features = ["derive"] }
crossterm = "0.28"
ratatui = "0.29"
unicode-width = "0.2"
atty = "0.2"
globset = "0.4"
ignore = "0.4"
rayon = "1"
indicatif = "0.17"
tokio = { version = "1", features = ["rt-multi-thread", "sync", "macros"] }
async-trait = "0.1"
mentra = "*"

[dev-dependencies]
tempfile = "3"
