[package]
name = "spacecraft"
version = "0.1.0"
edition = "2021"
publish = false

[dependencies]
uuid = { version = "1", features = ["v4"] }
serde = { version = "1", features = ["derive"] }
serde_json = "1"
walkdir = "2"
zip = { version = "2", default-features = false, features = ["deflate"] }
url = "2"
tauri = { version = "2", default-features = false }
tauri-plugin-global-shortcut = { version = "2", default-features = false }
