[package]
name = "rbw_agent"
version = "0.1.0"
edition = "2021"
publish = false

[dependencies]
aes = "=0.8.4"
anyhow = "=1.0.104"
base64 = "=0.22.1"
cbc = { version = "=0.1.2", features = ["alloc", "block-padding", "std"] }
hmac = "=0.12.1"
pbkdf2 = "=0.12.2"
rand = "=0.8.8"
rsa = "=0.9.10"
rustix = { version = "=1.1.5", features = ["fs", "process", "termios"] }
sha1 = "=0.10.7"
sha2 = "=0.10.9"
