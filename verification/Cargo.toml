[package]
name = "tomson"
version = "0.1.0"
edition = "2021"
publish = false

[dependencies]
rustc-serialize = "0.3"
toml = "0.1"
