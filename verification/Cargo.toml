[package]
name = "loudness"
version = "0.1.0"
edition = "2021"
publish = false

[dependencies]
anyhow = "1"
blake3 = "1"
clap = { version = "4", features = ["derive"] }
csv = "1"
ebur128 = "0.1"
serde = { version = "1", features = ["derive"] }
serde_json = "1"
symphonia = { version = "*", features = ["aac", "isomp4", "mp3"] }
