[package]
name = "ytamp"
version = "0.1.0"
edition = "2021"
publish = false

[dependencies]
anyhow = "=1.0.104"
directories = "=6.0.0"
eframe = { version = "=0.36.2", default-features = false, features = ["default_fonts", "glow", "x11"] }
egui = { version = "=0.36.2", default-features = false }
env_logger = { version = "=0.11.11", default-features = false }
futures-util = { version = "=0.3.34", default-features = false, features = ["std"] }
log = "=0.4.35"
mpris-server = "=0.9.0"
reqwest = { version = "=0.12.28", default-features = false, features = ["json"] }
rustfft = "=6.4.1"
serde = { version = "=1.0.229", features = ["derive"] }
serde_json = { version = "=1.0.154", features = ["preserve_order"] }
symphonia = { version = "=0.5.5", default-features = false, features = ["aac", "isomp4"] }
tokio = { version = "=1.54.1", features = ["rt-multi-thread", "macros", "sync", "time", "process"] }
