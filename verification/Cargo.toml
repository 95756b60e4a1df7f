[package]
name = "trackbuild"
version = "0.1.0"
edition = "2021"
publish = false

[dependencies]
chrono = "0.4"
serde = { version = "1", features = ["derive"] }
toml = "0.8"
clap = "2"
walkdir = "2"
