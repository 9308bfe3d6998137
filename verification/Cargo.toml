[package]
name = "filebrowser"
version = "0.1.0"
edition = "2021"
publish = false

[dependencies]
base64 = "0.22"
libc = "0.2"
natord = "1.0"
sicompass-pdk = "*"
sicompass-sdk = "*"

[dev-dependencies]
tempfile = "3"
