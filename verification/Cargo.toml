[package]
name = "rchat"
version = "0.1.0"
edition = "2021"
publish = false

[dependencies]
regex = "1"
serde = { version = "1", features = ["derive"] }
serde_derive = "1"
serde_json = "1"
clap = "2"
log = "0.4"
pretty_env_logger = "0.4"
threadpool = "1"
names = { version = "0.14", default-features = false }
termion = "1"
tui = { version = "0.19", default-features = false, features = ["termion"] }
