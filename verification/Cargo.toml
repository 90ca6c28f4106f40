[package]
name = "tx"
version = "0.1.0"
edition = "2021"
publish = false

[dependencies]
anyhow = "*"
arboard = "*"
chrono = "*"
clap = { version = "*", features = ["derive"] }
cpal = "*"
dirs = "*"
indicatif = "*"
reqwest = { version = "*", default-features = false, features = ["blocking"] }
rusqlite = { version = "*", features = ["bundled"] }
whisper-rs = "*"
