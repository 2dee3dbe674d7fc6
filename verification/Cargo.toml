[package]
name = "cargo_upgrades"
version = "0.1.0"
edition = "2021"
publish = false

[dependencies]
semver = "1"
cargo_metadata = "*"
crates-index = "*"
getopts = "*"
