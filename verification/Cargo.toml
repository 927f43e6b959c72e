[package]
name = "pictrim"
version = "0.1.0"
edition = "2021"
publish = false

[dependencies]
base64 = "0.22"
serde = { version = "1", features = ["derive"] }
serde_json = "1"
walkdir = "2"
rayon = "1"
rs-vips = "0.7"
tauri = { version = "2", default-features = false }
