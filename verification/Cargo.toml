[package]
name = "ml10x"
version = "0.1.0"
edition = "2021"
publish = false

[dependencies]
unicode-normalization = "0.1"
serde = { version = "1", features = ["derive"] }
serde_json = "1"
serde_yml = "0.0.12"
thiserror = "1"
clap = { version = "4", features = ["derive"] }
midir = "0.10"
crossbeam-channel = "0.5"
toml = "0.8"
dirs = "5"
env_logger = "0.11"
log = "0.4"
