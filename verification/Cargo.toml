[package]
name = "packet_decoder"
version = "0.1.0"
edition = "2021"
publish = false

[dependencies]
bitvec = "1"
deku = "0.16"
