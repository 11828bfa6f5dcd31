[package]
name = "shared_data"
version = "0.1.0"
edition = "2021"
publish = false

[dependencies]
pulldown-cmark = "*"
syntect = { version = "*", default-features = false, features = ["default-fancy"] }
chrono = "*"
