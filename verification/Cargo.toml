[package]
name = "nixman"
version = "0.1.0"
edition = "2021"
publish = false

[dependencies]
serde = { version = "*", features = ["derive"] }
serde_yml = "*"
clap = { version = "*", features = ["derive"] }
