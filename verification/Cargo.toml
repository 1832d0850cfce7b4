[package]
name = "cli_rust"
version = "0.1.0"
edition = "2021"
publish = false

[dependencies]
regex = "1"
clap = { version = "4.5", features = ["derive"] }
