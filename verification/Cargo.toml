[package]
name = "rrgen"
version = "0.1.0"
edition = "2021"
publish = false

[dependencies]
regex = "1"
heck = "*"
cruet = "*"
glob = "*"
serde = { version = "1", features = ["derive"] }
serde_json = "1"
serde_yaml = "*"
tera = { version = "1", default-features = false }
minijinja = "*"
thiserror = "*"
fs-err = "*"
