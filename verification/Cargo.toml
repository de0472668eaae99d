[package]
name = "lean_goalview"
version = "0.1.0"
edition = "2021"
publish = false

[dependencies]
serde_json = "1"
tungstenite = "*"
tao = "*"
wry = "*"
zed_extension_api = "*"
