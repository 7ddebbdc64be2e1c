[package]
name = "fuse-stripped-notebooks"
version = "0.1.0"
edition = "2021"
publish = false

[dependencies]
clap = { version = "=4.6.7", features = ["derive"] }
env_logger = "=0.11.11"
fuser = "=0.17.0"
libc = "=0.2.191"
log = "=0.4.35"
serde_json = "=1.0.154"
