[package]
name = "hunt"
version = "0.1.0"
edition = "2021"
publish = false

[dependencies]
clap = { version = "*", features = ["derive"] }
colored = "*"
indicatif = "*"
regex = "*"
serde_json = "*"
walkdir = "*"
