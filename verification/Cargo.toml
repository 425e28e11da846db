[package]
name = "commitgrid"
version = "0.1.0"
edition = "2021"
publish = false

[dependencies]
anyhow = "*"
chrono = "*"
clap = { version = "*", features = ["derive"] }
git2 = { version = "*", default-features = false }
rusttype = "*"
serde = "*"
serde_derive = "*"
serde_json = "*"
