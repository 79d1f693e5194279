[package]
name = "filter_sync"
version = "0.1.0"
edition = "2021"
publish = false

[dependencies]
color-eyre = "*"
log = "*"
nix = { version = "*", features = ["process"] }
pretty_env_logger = "*"
reqwest = { version = "*", features = ["json"] }
serde = { version = "*", features = ["derive"] }
serde_json = "*"
tokio = { version = "*", features = ["fs", "io-util", "rt"] }
zip = "*"
