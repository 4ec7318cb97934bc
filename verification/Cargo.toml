[package]
name = "rmenu"
version = "0.1.0"
edition = "2021"
publish = false

[dependencies]
anyhow = "=1.0.104"
clap = { version = "=4.6.7", features = ["derive"] }
eframe = { version = "=0.37.0", default-features = false, features = ["default_fonts", "glow", "x11"] }
egui = { version = "=0.37.0", default-features = false }
font-kit = "=0.14.3"
jaq-core = "0.10"
jql-runner = "=9.0.3"
serde_json = "=1.0.154"
