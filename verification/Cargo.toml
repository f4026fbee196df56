[package]
name = "midenup"
version = "0.4.0"
edition = "2021"
publish = false

[dependencies]
anyhow = "1"
colored = "3"
flate2 = "1"
semver = "1"
serde = { version = "1", features = ["derive"] }
serde_json = "1"
sha2 = "0.10"
tar = "0.4"
thiserror = "2"
