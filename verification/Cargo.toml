[package]
name = "crab_git"
version = "0.1.0"
edition = "2021"
publish = false

[dependencies]
sha2 = "*"
flate2 = "*"
chrono = "*"
clap = { version = "*", features = ["derive"] }
walkdir = "*"
