[package]
name = "zypi"
version = "0.1.0"
edition = "2021"
publish = false

[dependencies]
eframe = { version = "=0.36.2", default-features = false, features = ["default_fonts", "glow", "x11"] }
quick-xml = { version = "=0.39.4", features = ["serialize"] }
serde = { version = "1", features = ["derive"] }
