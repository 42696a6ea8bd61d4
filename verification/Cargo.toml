[package]
name = "orion"
version = "0.1.0"
edition = "2021"
publish = false

[dependencies]
chrono = "0.4"
docopt = "*"
env_logger = "*"
log = "0.4"
nanomsg = "*"
serde = { version = "1", features = ["derive"] }
