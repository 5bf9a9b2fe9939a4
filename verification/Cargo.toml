[package]
name = "dtorrent"
version = "0.1.0"
edition = "2021"
publish = false

[dependencies]
sha1 = "0.10"
rand = "0.8"
chrono = "0.4"
gtk = "0.15"
