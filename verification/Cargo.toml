[package]
name = "asm16"
version = "0.1.0"
edition = "2021"
publish = false

[dependencies]
clap = { version = "*", features = ["derive"] }
colored = "*"
miette = { version = "*", features = ["fancy"] }
