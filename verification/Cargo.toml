[package]
name = "mail_core"
version = "0.1.0"
edition = "2021"
publish = false

[dependencies]
idna = "=0.5.0"
base64 = "=0.9.3"
rand = "=0.8.8"
mime = "0.3"
