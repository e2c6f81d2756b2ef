[package]
name = "lscopy"
version = "0.1.0"
edition = "2021"
publish = false

[dependencies]
serde = { version = "1", features = ["derive"] }
serde_json = "1"
base64 = "0.22"
image = { version = "0.25", default-features = false, features = ["png", "jpeg", "gif", "bmp", "webp"] }
rusqlite = { version = "0.32", features = ["bundled"] }
arboard = "3"
enigo = { version = "0.2", default-features = false, features = ["x11rb"] }
winreg = "0.52"
