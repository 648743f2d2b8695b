[package]
name = "actionkv"
version = "0.1.0"
edition = "2021"
publish = false

[dependencies]
bincode = "1.3"
byteorder = "1"
clap = { version = "4", features = ["derive"] }
crc = "3"
rand = "0.8"
shlex = "1"
