[package]
name = "chess_engine"
version = "0.1.0"
edition = "2021"
publish = false

[dependencies]
chrono = "=0.4.45"
egui = "=0.29.1"
eframe = { version = "=0.29.1", default-features = false, features = ["glow", "default_fonts", "x11"] }
