[package]
name = "tcp_network"
version = "0.1.0"
edition = "2021"
publish = false

[dependencies]
byteorder = "1"
num = "0.4"
mio = "0.6"
log = "0.4"
