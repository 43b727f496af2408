[package]
name = "rplayer"
version = "0.5.0"
edition = "2021"
publish = false

[dependencies]
serde = { version = "1", features = ["derive"] }
serde_json = "1"
dirs = "5"
chrono = { version = "0.4", features = ["serde"] }
tiny_http = "0.12"
crossbeam-channel = "0.5"
ureq = "2"
log = "0.4"
env_logger = "0.11"
obfstr = "0.4"
