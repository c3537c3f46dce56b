[package]
name = "sam"
version = "0.1.0"
edition = "2021"
publish = false

[dependencies]
eframe = { version = "0.31", default-features = false, features = ["default_fonts", "glow", "x11"] }
egui = { version = "0.31", default-features = false }
image = { version = "0.25", default-features = false, features = ["jpeg", "png"] }
libloading = "0.8"
ureq = { version = "3", default-features = false, features = ["rustls"] }
