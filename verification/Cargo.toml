[package]
name = "enumscan"
version = "0.1.0"
edition = "2021"
publish = false

[dependencies]
zip = "*"
regex = "*"
serde = { version = "*", features = ["derive"] }
clap = { version = "*", features = ["derive"] }
anyhow = "*"
