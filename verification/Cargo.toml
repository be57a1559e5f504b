[package]
name = "slopty_ui"
version = "0.1.0"
edition = "2021"
publish = false

[dependencies]
blake3 = "1"
image = { version = "0.25", default-features = false, features = ["png"] }
similar = "2"
syntect = { version = "5", default-features = false, features = ["default-fancy"] }
