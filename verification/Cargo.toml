[package]
name = "dsh_desktop"
version = "0.1.0"
edition = "2021"
publish = false

[dependencies]
base64 = "0.22"
chrono = { version = "0.4", default-features = false, features = ["clock"] }
image = { version = "0.25", default-features = false, features = ["png", "jpeg", "gif", "webp"] }
pulldown-cmark = { version = "0.13", default-features = false }
serde_json = "1"
syntect = { version = "5", default-features = false, features = ["default-fancy"] }
