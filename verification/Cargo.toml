[package]
name = "rustfst"
version = "0.1.0"
edition = "2021"
publish = false

[dependencies]
nom = "7"
anyhow = "1"
serde = { version = "1", features = ["derive"] }

[dev-dependencies]
counter = "*"
