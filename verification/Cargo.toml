[package]
name = "minit"
version = "0.1.0"
edition = "2021"
publish = false

[dependencies]
chrono = { version = "0.4", features = ["serde"] }
uuid = { version = "1", features = ["v4", "serde"] }
serde = { version = "1", features = ["derive"] }
serde_json = "1"
directories = "*"
image = { version = "*", default-features = false, features = ["png"] }
eframe = { version = "*", default-features = false, features = ["default_fonts", "glow", "x11"] }
