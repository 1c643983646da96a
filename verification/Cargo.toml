[package]
name = "lora_mesh"
version = "0.1.0"
edition = "2021"
publish = false

[dependencies]
egui = { version = "0.27", default-features = false, features = ["default_fonts"] }
env_logger = "0.10"
log = "0.4"
serde = { version = "1", features = ["derive"] }
serialport = { version = "4", default-features = false }
