[package]
name = "exif_reader"
version = "0.1.0"
edition = "2021"
publish = false

[dependencies]
kamadak-exif = "*"
walkdir = "*"
rayon = "*"
axum = "0.6"
tokio = { version = "1", features = ["macros", "rt-multi-thread"] }
serde = { version = "1", features = ["derive"] }
serde_json = "1"
