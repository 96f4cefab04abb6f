[package]
name = "semifold"
version = "0.1.0"
edition = "2021"
publish = false

[dependencies]
semver = "*"
toml_edit = { version = "*", features = ["serde"] }
serde_json = "*"
saphyr = "*"
serde = { version = "*", features = ["derive"] }
git2 = { version = "*", default-features = false }
glob = "*"
pathdiff = "*"
anyhow = "*"
