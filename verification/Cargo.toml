[package]
name = "envbuddel"
version = "0.1.0"
edition = "2021"
publish = false

[dependencies]
aes-gcm = "0.10"
base-x = "0.2"
base64 = "0.22"
clap = { version = "4", features = ["derive", "env"] }
env_logger = "0.11"
log = "0.4"
rand = "0.9"
tar = "0.4"

[dev-dependencies]
bincode = "2"
