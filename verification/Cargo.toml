[package]
name = "reminder"
version = "0.1.0"
edition = "2021"
publish = false

[dependencies]
chrono = { version = "=0.4.45", default-features = false, features = ["clock", "std", "serde"] }
eframe = { version = "=0.35.0", default-features = false, features = ["glow", "default_fonts", "x11"] }
egui_extras = { version = "=0.35.0", default-features = false }
reqwest = { version = "=0.13.5", default-features = false, features = ["blocking", "json", "query", "rustls"] }
serde = { version = "=1.0.229", features = ["derive"] }
serde_json = "=1.0.151"
thiserror = "=1.0.69"
