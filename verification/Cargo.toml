[package]
name = "tun"
version = "0.1.0"
edition = "2021"
publish = false

[dependencies]
byteorder = "1"
bytes = "1"
smoltcp = "0.11"
thiserror = "1"
