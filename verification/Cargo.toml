[package]
name = "sspm_codec"
version = "0.1.0"
edition = "2021"
publish = false

[dependencies]
zip = { version = "*", default-features = false }
serde_json = "*"
