[package]
name = "chronicles"
version = "0.1.0"
edition = "2021"
publish = false

[dependencies]
alloy = { version = "*", default-features = false, features = ["dyn-abi", "json-abi"] }
serde_json = "*"
regex = "*"
