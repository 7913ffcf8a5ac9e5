[package]
name = "netguard"
version = "0.1.0"
edition = "2021"
publish = false

[dependencies]
chrono = "0.4"
regex = "1"
serde = { version = "1", features = ["derive"] }
serde_json = "1"
lazy_static = "1"
parking_lot = "0.12"
rusqlite = { version = "*", features = ["bundled"] }
libc = "0.2"
log = "0.4"
env_logger = "*"
ctrlc = "3"
