[package]
name = "modloader"
version = "0.1.0"
edition = "2021"
publish = false

[dependencies]
sled = "0.34"
semver = "1"
serde = { version = "1", features = ["derive"] }
serde_json = "1"
compress-tools = "*"
dunce = "1"
directories = "*"
