[package]
name = "leadsheetml"
version = "0.1.0"
edition = "2021"
publish = false

[dependencies]
markup_engine = "*"
clap = { version = "*", features = ["derive"] }
