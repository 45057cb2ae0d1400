[package]
name = "chessmusic"
version = "0.1.0"
edition = "2021"
publish = false

[dependencies]
crossbeam = "*"
midir = "*"
reqwest = { version = "*", default-features = false }
tokio = { version = "*", features = ["rt-multi-thread"] }
