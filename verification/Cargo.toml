[package]
name = "shcs"
version = "0.1.0"
edition = "2021"
publish = false

[dependencies]
nanoid = "*"
serde = { version = "*", features = ["derive"] }
serde_json = "*"
serde_yaml = "*"
toml = "*"
tempfile = "*"
dotenvy = "*"
once_cell = "*"
reqwest = { version = "*", default-features = false, features = ["multipart"] }
actix-web = "*"
actix-files = "*"
actix-multipart = "*"
