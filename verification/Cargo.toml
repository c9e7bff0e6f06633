[package]
name = "myrustutils"
version = "0.1.0"
edition = "2021"
publish = false

[dependencies]
anyhow = "1"
base64 = "0.22"
colored = "2"
markdown = ">=1.0.0-alpha.1"
regex = "1"
reqwest = { version = "0.12", default-features = false, features = ["blocking"] }
