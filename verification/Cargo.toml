[package]
name = "trellis"
version = "0.1.0"
edition = "2021"
publish = false

[dependencies]
markdown = "1"
emojis = "*"
sha2 = "0.10"
pbkdf2 = "0.12"
aes-gcm = "0.10"
base64 = "0.22"
getrandom = "0.3"
