[package]
name = "regionomics"
version = "0.1.0"
edition = "2021"

[dependencies]
flate2 = "*"
clap = { version = "*", features = ["derive"] }
