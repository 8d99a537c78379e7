[package]
name = "jdwp_client"
version = "0.1.0"
edition = "2021"
publish = false

[dependencies]
bitflags = "1.3"
log = "=0.4.34"
env_logger = { version = "=0.11.11", default-features = false }
