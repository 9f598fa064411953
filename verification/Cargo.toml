[package]
name = "slintscanners"
version = "0.1.0"
edition = "2021"
publish = false

[dependencies]
regex = "1"
glob = "0.3"
serde = { version = "1", features = ["derive"] }
toml = "0.8"
walkdir = "2"
