[package]
name = "autoupdater"
version = "0.1.0"
edition = "2021"
publish = false

[dependencies]
platforms = "*"
semver = "1"
reqwest = { version = "*", default-features = false, features = ["blocking", "json"] }
serde = { version = "1", features = ["derive"] }
serde_yaml = "*"
