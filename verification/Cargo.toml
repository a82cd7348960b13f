[package]
name = "kvs"
version = "0.1.0"
edition = "2021"
publish = false

[dependencies]
anyhow = "1"
bytes = "1"
crossbeam-skiplist = "0.1"
clap = { version = "4", features = ["derive"] }
color-eyre = "0.6"
crossterm = "0.28"
env_logger = "0.11"
opendal = { version = "0.51", default-features = false, features = ["services-s3"] }
ratatui = "0.29"
ron = "0.8"
serde = { version = "1", features = ["derive"] }
serde_json = "1"
serde_yaml = "0.9"
tokio = { version = "1", features = ["macros", "rt-multi-thread"] }
