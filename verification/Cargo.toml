[package]
name = "mdbook-fs-summary"
version = "0.1.0"
edition = "2021"
publish = false

[dependencies]
anyhow = "1"
mdbook = { version = "0.4", default-features = false }
regex = "1"
semver = "1"
serde_json = "1"
