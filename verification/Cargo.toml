[package]
name = "tauri-plugin-wayland-nvidia-quirk"
version = "0.1.0"
edition = "2021"
publish = false

[dependencies]
gtk = "0.18"
tauri = { version = "2", default-features = false, features = ["wry"] }
