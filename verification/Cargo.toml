[package]
name = "orbit_propagator"
version = "0.1.0"
edition = "2021"
publish = false

[dependencies]
approx = "*"
eframe = { version = "*", default-features = false, features = ["default_fonts", "glow", "x11"] }
egui = "*"
egui_extras = { version = "*", features = ["image"] }
egui_plot = "*"
