[package]
name = "macolint"
version = "0.1.0"
edition = "2021"
publish = false

[dependencies]
aes-gcm = "*"
anyhow = "*"
base64 = "*"
clap = { version = "*", features = ["derive"] }
dirs = "*"
fuzzy-matcher = "*"
pbkdf2 = "*"
rand = "*"
rusqlite = { version = "*", features = ["bundled"] }
serde = { version = "*", features = ["derive"] }
serde_json = "*"
sha2 = "*"
