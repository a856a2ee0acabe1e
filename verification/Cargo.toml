[package]
name = "april"
version = "0.1.0"
edition = "2021"
publish = false

[dependencies]
anyhow = "1"
argh = "0.1"
base64 = "*"
deb822-lossless = "*"
hex = "0.4"
libc = "0.2"
percent-encoding = "2"
serde = { version = "1", features = ["derive"] }
serde_json = "1"
sha2 = "0.10"
tempfile = "3"
toml = "*"
ureq = "*"
url = "2"
