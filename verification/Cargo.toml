[package]
name = "chapter_zero"
version = "0.1.0"
edition = "2021"
publish = false

[dependencies]
log = "0.4"
mdbook = { version = "0.4", default-features = false }
toml = "0.5"
