[package]
name = "office_crypto"
version = "0.1.0"
edition = "2021"
publish = false

[dependencies]
aes = "0.8"
base64 = "0.22"
cbc = "0.1"
ecb = "0.1"
quick-xml = "0.37"
sha1 = "0.10"
sha2 = "0.10"

[dev-dependencies]
cfb = "*"
hmac = "0.12"
