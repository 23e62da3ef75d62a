[package]
name = "guanqi"
version = "0.1.0"
edition = "2021"
publish = false

[dependencies]
serde = { version = "=1.0.229", features = ["derive"] }
serde_json = "=1.0.154"
egui = { version = "=0.36.2", default-features = false }
eframe = { version = "=0.36.2", default-features = false, features = ["glow", "x11", "default_fonts"] }
