[package]
name = "gmanim_editor"
version = "0.1.0"
edition = "2021"
publish = false

[dependencies]
egui = "=0.34.3"
eframe = { version = "=0.34.3", default-features = false, features = ["glow", "x11", "default_fonts"] }
interprocess = "=2.4.7"
logos = "=0.15.1"
notify = "=8.2.1"
serde = { version = "=1.0.229", features = ["derive"] }
serde_json = "=1.0.154"
shared_memory = "=0.12.4"
