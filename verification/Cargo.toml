[package]
name = "rustblood"
version = "0.1.0"
edition = "2021"
publish = false

[dependencies]
discord = "*"
rand = "0.8"
regex = "1"
relative-path = "1"
self_update = "*"
serde = { version = "1", features = ["derive"] }
serde_json = "1"
unicode-segmentation = "1"
