[package]
name = "ue-pak-sig"
version = "0.1.0"
edition = "2021"
publish = false

[dependencies]
base64 = "0.22"
crc32fast = "1"
sha1 = "0.10"
rsa = { version = "0.9", features = ["getrandom"] }
thiserror = "2"
clap = { version = "4", features = ["derive"] }
colored = "2"
