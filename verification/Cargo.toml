[package]
name = "fakepaint"
version = "0.1.0"
edition = "2021"
publish = false

[dependencies]
eframe = { version = "=0.22.0", default-features = false, features = ["glow", "default_fonts"] }
egui = { version = "=0.22.0", default-features = false }
image = { version = "=0.24.9", default-features = false, features = ["png"] }
imageproc = { version = "=0.23.1", default-features = false }
palette = { version = "=0.7.7", default-features = false, features = ["std"] }
rust-i18n = "=2.3.1"
rust-i18n-support = "=2.3.0"
serde = { version = "=1.0.229", features = ["derive"] }
serde_json = "=1.0.154"
tracing-subscriber = "=0.3.23"
