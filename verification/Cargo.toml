[package]
name = "rustic"
version = "0.1.0"
edition = "2021"
publish = false

[dependencies]
clap = "*"
image = "*"
rayon = "*"
serde = { version = "*", features = ["derive"] }
serde_json = "*"
