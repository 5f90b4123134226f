[package]
name = "singbox_commander"
version = "0.1.0"
edition = "2021"
publish = false

[dependencies]
base64 = "0.22"
native-windows-gui = "1"
serde = { version = "1", features = ["derive"] }
serde_json = "1"
url = "2"
