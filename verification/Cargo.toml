[package]
name = "stribog"
version = "0.1.0"
edition = "2021"
publish = false

[dependencies]
walkdir = "*"
string-builder = "*"
fs-err = "*"
clap = { version = "*", features = ["derive"] }
daemonize = "*"
