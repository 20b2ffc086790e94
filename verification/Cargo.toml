[package]
name = "git_stat"
version = "0.1.0"
edition = "2021"
publish = false

[dependencies]
chrono = "0.4"
unicode-width = "*"
git2 = { version = "*", default-features = false }
csv = "*"
serde = { version = "*", features = ["derive"] }
serde_yaml = "*"
clap = { version = "*", features = ["derive"] }
env_logger = "*"
log = "*"
ratatui = "*"
