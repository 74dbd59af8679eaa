[package]
name = "config_bag"
version = "0.1.0"
edition = "2021"
publish = false

[dependencies]
anyhow = "1"
bytes = "1"
clap = { version = "4", features = ["derive"] }
hound = "3"
once_cell = "1"
regex = "1"
semver = "1"
