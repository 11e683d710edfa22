[package]
name = "senzai"
version = "0.1.0"
edition = "2021"
publish = false

[dependencies]
getopts = "*"
chrono = "*"
reqwest = { version = "*", default-features = false, features = ["blocking"] }
