[package]
name = "symbiotic"
version = "0.1.0"
edition = "2021"
publish = false

[dependencies]
regex = "1"
image = { version = "0.25", default-features = false, features = ["png", "jpeg", "gif", "tiff", "tga", "webp"] }
toml = "0.8"
clap = "4"
openssl = "0.10"
tempdir = "0.3"
log = "0.4"
env_logger = "0.11"
libc = "0.2"

[dev-dependencies]
protobuf = "3"
