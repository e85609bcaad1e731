[package]
name = "oakum"
version = "0.1.0"
edition = "2021"
publish = false

[dependencies]
semver = "1"
git-conventional = "*"
serde = { version = "1", features = ["derive"] }
serde_json = "1"
toml = "*"
toml_edit = "*"
clap = { version = "4", features = ["derive"] }
cap-std = "*"
