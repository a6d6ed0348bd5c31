[package]
name = "bava"
version = "0.1.0"
edition = "2021"
publish = false

[dependencies]
dirs = "=7.0.0"
base64 = "=0.23.1"
clap = { version = "=4.6.7", features = ["derive"] }
serde = { version = "=1.0.229", features = ["derive"] }
serde_json = "=1.0.154"
toml = "=1.1.8"
tempfile = "=3.27.0"
realfft = "=3.5.1"
symphonia = { version = "=0.5.5", features = ["mp3", "aac", "isomp4"] }
crossbeam-channel = "=0.5.17"
image = { version = "=0.25.10", default-features = false, features = ["jpeg", "png"] }
color-thief = "=0.2.2"
ureq = { version = "=2.12.1", default-features = false }
