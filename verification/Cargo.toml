[package]
name = "sonus"
version = "0.1.0"
edition = "2021"
publish = false

[dependencies]
anyhow = "*"
cpal = "*"
dirs = "*"
eframe = { version = "*", default-features = false, features = ["glow", "x11"] }
egui = "*"
futures-executor = "*"
log = "*"
reqwest = { version = "*", default-features = false, features = ["json"] }
serde = { version = "*", features = ["derive"] }
serde_json = "*"
