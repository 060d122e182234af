[package]
name = "forkme"
version = "0.1.0"
edition = "2021"
publish = false

[dependencies]
anyhow = "1"
clap = { version = "4", features = ["derive"] }
diffy = "0.4"
git2 = { version = "0.20", default-features = false }
serde = { version = "1", features = ["derive"] }
toml = "0.8"
walkdir = "2"

[dev-dependencies]
tempfile = "3"
