[package]
name = "addon_manager"
version = "0.1.0"
edition = "2021"
publish = false

[dependencies]
anyhow = "*"
clap = { version = "*", features = ["derive"] }
copy_dir = "*"
prettytable-rs = "*"
serde = { version = "*", features = ["derive"] }
serde_json = "*"
serde_jsonc = "*"
tempfile = "*"
thiserror = "*"
zip = "*"

[dev-dependencies]
semver = "*"
