[package]
name = "rustcapo"
version = "0.1.0"
edition = "2021"
publish = false

[dependencies]
java-properties = "*"
dirs = "*"
clap = { version = "*", features = ["derive"] }
