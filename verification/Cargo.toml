[package]
name = "anime_player"
version = "0.1.0"
edition = "2021"
publish = false

[dependencies]
sha2 = "0.10"
url = "2"
base64 = "0.22"
regex = "1"
serde = { version = "1", features = ["derive"] }
serde_json = "1"
