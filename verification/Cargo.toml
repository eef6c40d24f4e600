[package]
name = "maxbench"
version = "0.1.0"
edition = "2021"
publish = false

[dependencies]
serde_json = "*"
rand = "*"
clap = { version = "*", features = ["derive"] }
