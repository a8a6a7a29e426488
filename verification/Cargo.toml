[package]
name = "dep_sync"
version = "0.1.0"
edition = "2021"
publish = false

[dependencies]
toml_edit = "*"
base64 = "*"
serde_json = "*"
reqwest = { version = "*", default-features = false, features = ["blocking"] }
