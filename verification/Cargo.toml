[package]
name = "session_inspector"
version = "0.1.0"
edition = "2021"
publish = false

[dependencies]
anyhow = "1"
clap = { version = "4", features = ["derive"] }
owo-colors = "4"
rmcp = { version = "*", default-features = false }
serde_json = "1"
supports-color = "3"
thiserror = "2"
zstd = "0.13"
