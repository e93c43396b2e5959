[package]
name = "precommit"
version = "0.1.0"
edition = "2021"
publish = false

[dependencies]
clap = "2"
colored = "2"
failure = "0.1"
git2 = { version = "0.19", default-features = false }
regex = "1"
serde = "1"
serde_derive = "1"
serde_yaml = "0.8"
