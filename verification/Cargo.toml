[package]
name = "duplicate_file_deletor"
version = "0.1.0"
edition = "2021"
publish = false

[dependencies]
anyhow = "1"
chrono = { version = "0.4", default-features = false, features = ["clock"] }
csv = "=1.4.0"
eframe = { version = "=0.31.1", default-features = false, features = ["default_fonts", "glow"] }
env_logger = { version = "0.11", default-features = false }
log = "0.4"
rayon = "1"
rfd = { version = "=0.15.4", default-features = false, features = ["xdg-portal", "tokio"] }
trash = { version = "5", default-features = false }
walkdir = "=2.5.0"
winit = { version = "0.30", default-features = false, features = ["x11"] }
xxhash-rust = { version = "=0.8.19", features = ["xxh3"] }
