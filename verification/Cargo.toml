[package]
name = "mdbook-pdf"
version = "0.2.0"
edition = "2021"
publish = false

[dependencies]
env_logger = "0.11"
headless_chrome = "1"
mdbook-core = "0.5"
mdbook-renderer = "0.5"
regex = "1"
serde = "1"
serde_derive = "1"
