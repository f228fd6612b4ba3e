[package]
name = "makecab"
version = "0.1.0"
edition = "2021"
publish = false

[dependencies]
flate2 = { version = "1", default-features = false, features = ["zlib-rs"] }
chrono = { version = "0.4", default-features = false, features = ["clock"] }
filetime = "0.2"
clap = "3"

[dev-dependencies]
cab = "*"
