[package]
name = "gifsennin-rust"
version = "0.1.0"
edition = "2021"
publish = false

[dependencies]
image = { version = "=0.25.10", default-features = false, features = ["png", "gif", "jpeg", "bmp"] }
gif = "=0.13.3"
webp = "=0.3.1"
zip = { version = "=2.6.1", default-features = false, features = ["deflate"] }
rayon = "=1.12.0"
chrono = "=0.4.45"
eframe = { version = "0.29", default-features = false, features = ["glow", "x11", "default_fonts"] }
egui = "0.29"
thiserror = "1"
env_logger = { version = "0.11", default-features = false }
log = "0.4"
