[package]
name = "secretary"
version = "0.1.0"
edition = "2021"
publish = false

[dependencies]
image = { version = "=0.24.9", default-features = false, features = ["png", "jpeg"] }
egui = "=0.19.0"
egui_extras = "=0.19.0"
eframe = { version = "=0.19.0", default-features = false, features = ["default_fonts", "glow"] }
dirs = "=4.0.0"
serde = { version = "=1.0.229", features = ["derive"] }
