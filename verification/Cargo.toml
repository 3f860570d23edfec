[package]
name = "gif_lab"
version = "0.1.0"
edition = "2021"
publish = false

[dependencies]
image = { version = "=0.25.10", default-features = false, features = ["gif", "png"] }
base64 = "=0.23.1"
anyhow = "*"
bytes = "*"
reqwest = { version = "*", default-features = false }
kovi = "=0.12.7"
kovi-plugin-expand-napcat = "*"
