[package]
name = "cli_progress"
version = "0.1.0"
edition = "2021"
publish = false

[dependencies]
enable-ansi-support = "*"
