[package]
name = "bentos-execd"
version = "0.1.0"
edition = "2021"
publish = false

[dependencies]
prost = { version = "0.13", default-features = false, features = ["std"] }
nix = { version = "0.29", features = ["process", "signal", "term", "ioctl", "poll", "fs"] }
log = "0.4"
env_logger = "0.11"
