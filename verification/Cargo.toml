[package]
name = "garage"
version = "0.1.0"
edition = "2021"
publish = false

[dependencies]
base64 = "=0.23.1"
crc32c = "=0.6.8"
crc32fast = "=1.5.2"
fjall = "=2.11.2"
md-5 = "=0.11.0"
sha1 = "=0.11.0"
sha2 = "=0.11.0"
