[package]
name = "asus-tuf-cpu"
version = "2.0.0"
edition = "2021"
publish = false

[dependencies]
gtk4 = { version = "0.9", features = ["v4_10"] }
libadwaita = { version = "0.7", features = ["v1_5"] }
