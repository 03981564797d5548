[package]
name = "matchplan"
version = "0.1.0"
edition = "2021"
publish = false

[dependencies]
serde_json = "*"
kiss_xml = "*"
regex = "*"
snailquote = "*"
base64 = "*"
