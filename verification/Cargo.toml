[package]
name = "comtrade"
version = "0.1.0"
edition = "2021"
publish = false

[dependencies]
byteorder = "1"
chrono = { version = "0.4", default-features = false, features = ["std"] }
regex = "1"
