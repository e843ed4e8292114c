[package]
name = "phonemirror"
version = "2.1.0"
edition = "2021"
publish = false

[dependencies]
serde = { version = "1", features = ["derive"] }
serde_json = "1"
chrono = "0.4"
eframe = { version = "0.32", default-features = false, features = ["default_fonts", "glow", "x11"] }
egui = { version = "0.32", default-features = false, features = ["default_fonts"] }
muda = { version = "0.17", default-features = false }
tray-icon = { version = "0.21", default-features = false }
