[package]
name = "hugetop"
version = "0.1.0"
edition = "2021"

[dependencies]
clap = "*"
uucore = { version = "*", features = ["uptime"] }
