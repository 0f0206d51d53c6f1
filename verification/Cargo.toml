[package]
name = "mutagen_runner"
version = "0.1.0"
edition = "2021"
publish = false

[dependencies]
json = "*"
wait-timeout = "*"
