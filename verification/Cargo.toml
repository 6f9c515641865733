[package]
name = "tangram"
version = "0.1.0"
edition = "2021"
publish = false

[dependencies]
im = "15.1.0"
semver = "1"
url = "2"
lsp-types = "0.94"
serde_json = "1"
serde = { version = "1", features = ["derive"] }
