[package]
name = "novel"
version = "0.1.0"
edition = "2021"
publish = false

[dependencies]
rust-crypto = "0.2"
regex = "1"
ureq = "3"
iepub = "1"
zip = { version = "9", default-features = false }
anyhow = "1"
log = "0.4"
env_logger = "0.11"
