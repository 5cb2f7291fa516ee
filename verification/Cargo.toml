[package]
name = "lsfg_vk_gui"
version = "0.1.0"
edition = "2021"
publish = false

[dependencies]
dirs = "5"
serde = { version = "1", features = ["derive"] }
serde_json = "1"
toml = "0.8"
gtk4 = "0.9"
libadwaita = { version = "0.7", features = ["v1_4"] }
