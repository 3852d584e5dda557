[package]
name = "wuerfeln"
version = "0.1.0"
edition = "2021"
publish = false

[dependencies]
rand = "*"
ansi_term = "*"
clap = "*"
dialoguer = "*"
directories = "*"
serde = { version = "*", features = ["derive"] }
serde_yaml = "*"
