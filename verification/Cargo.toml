[package]
name = "evented_tcp"
version = "0.1.0"
edition = "2021"
publish = false

[dependencies]
mio = "0.6"
