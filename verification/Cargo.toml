[package]
name = "loopah"
version = "0.1.0"
edition = "2021"
publish = false

[dependencies]
anyhow = "=1.0.104"
eframe = { version = "0.31", default-features = false, features = ["glow", "x11"] }
egui_plot = "0.32"
rfd = { version = "0.15", default-features = false, features = ["tokio", "xdg-portal"] }
symphonia = { version = "=0.5.5", features = ["aac", "isomp4", "mp3"] }
