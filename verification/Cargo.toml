[package]
name = "parfit"
version = "0.4.0"
edition = "2021"
publish = false

[dependencies]
textwrap = "0.16"
regex = "1"
clap = { version = "4", features = ["derive"] }
globset = "0.4"
ignore = "0.4"
