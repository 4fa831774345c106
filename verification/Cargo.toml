[package]
name = "modat"
version = "0.2.1"
edition = "2021"
publish = false

[dependencies]
base64 = "=0.22.1"
chrono = "=0.4.45"
serde = { version = "=1.0.229", features = ["derive"] }
serde_json = "=1.0.154"
serde_ini = "=0.2.0"
serialport = { version = "=4.10.1", default-features = false }
reqwest = { version = "=0.12.28", default-features = false, features = ["blocking"] }
egui = { version = "=0.31.1", default-features = false, features = ["default_fonts"] }
eframe = { version = "=0.31.1", default-features = false, features = ["glow", "x11"] }
windows = { version = "=0.58.0", features = ["Win32_Foundation", "Win32_Security", "Win32_Security_Cryptography"] }
