[package]
name = "asset_catalog"
version = "0.1.0"
edition = "2021"
publish = false

[dependencies]
godot = "*"
regex = "1"
rusqlite = "*"
serde = { version = "1", features = ["derive"] }
serde_json = "1"
walkdir = "2"
