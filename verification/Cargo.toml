[package]
name = "hk_modlinks"
version = "0.1.0"
edition = "2021"
publish = false

[dependencies]
hex = "*"
serde = { version = "*", features = ["derive"] }
serde_json = "*"
toml = "*"
serde_yaml = "*"
ron = "*"
quick-xml = { version = "*", features = ["serialize"] }
clap = { version = "*", features = ["derive"] }
url = "*"
