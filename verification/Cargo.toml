[package]
name = "warehouse"
version = "0.1.0"
edition = "2021"
publish = false

[dependencies]
regex = "1"
bcrypt = "*"
rusqlite = { version = "*", features = ["bundled"] }
anyhow = "1"
