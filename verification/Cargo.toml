[package]
name = "aeriform"
version = "0.1.0"
edition = "2021"
publish = false

[dependencies]
multimap = "*"
clap = { version = "*", features = ["derive"] }
glob = "*"
regex = "*"
lazy_static = "*"
