[package]
name = "nlsh"
version = "0.1.0"
edition = "2021"
publish = false

[dependencies]
serde_json = "*"
clap = { version = "*", features = ["derive"] }
crossterm = "*"
dirs = "*"
reqwest = { version = "*", default-features = false, features = ["blocking"] }
