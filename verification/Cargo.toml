[package]
name = "masteroids"
version = "0.1.0"
edition = "2021"
publish = false

[dependencies]
rand = "=0.10.3"
egui = "=0.33.3"
eframe = { version = "=0.33.3", default-features = false, features = ["glow", "default_fonts", "x11"] }
