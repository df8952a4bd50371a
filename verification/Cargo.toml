[package]
name = "apogeo"
version = "0.1.0"
edition = "2021"
publish = false

[dependencies]
egui = "0.27"
egui_plot = "0.27"
image = { version = "0.24", default-features = false, features = ["png"] }
serialport = { version = "4", default-features = false }
