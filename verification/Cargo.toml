[package]
name = "sprite_gen"
version = "0.1.0"
edition = "2021"
publish = false

[dependencies]
rand = "0.8"
regex = "1"
base64 = "0.22"
image = { version = "0.24", default-features = false, features = ["png"] }
serde_json = "1"
