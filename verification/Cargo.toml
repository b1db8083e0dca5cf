[package]
name = "herdr_window_title"
version = "0.1.0"
edition = "2021"
publish = false

[dependencies]
toml = "0.8"
serde_json = "1"
