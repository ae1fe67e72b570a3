[package]
name = "nbt_view"
version = "0.1.0"
edition = "2021"
publish = false

[dependencies]
eframe = { version = "*", default-features = false, features = ["glow", "x11", "default_fonts"] }
egui_dock = "*"
env_logger = { version = "*", default-features = false }
log = "*"
nbt = "=0.1.2"
