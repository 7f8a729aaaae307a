[package]
name = "projection"
version = "0.2.0"
edition = "2021"
publish = false

[dependencies]
clap = "=2.34.0"
colored = "=1.9.4"
dialoguer = "=0.6.2"
enquirer = "=0.4.0"
fp-core = "=0.1.9"
fuzzy-matcher = "=0.3.7"
git2 = "=0.13.25"
jfs = "=0.6.2"
serde = { version = "=1.0.229", features = ["derive"] }
skim = "=0.7.0"
url = "=2.5.8"
