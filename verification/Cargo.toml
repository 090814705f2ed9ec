[package]
name = "ce_gtk"
version = "0.1.0"
edition = "2021"
publish = false

[dependencies]
libadwaita = { version = "*", features = ["v1_5"] }
cxx = "*"
