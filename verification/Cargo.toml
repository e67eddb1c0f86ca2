[package]
name = "horust"
version = "0.1.0"
edition = "2021"
publish = false

[dependencies]
libc = "0.2"
log = "0.4"
env_logger = "*"
structopt = "0.3"
serde = { version = "1", features = ["derive"] }
toml = "*"
