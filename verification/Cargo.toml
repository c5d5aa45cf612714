[package]
name = "tcg_layout"
version = "0.1.0"
edition = "2021"
publish = false

[dependencies]
image = { version = "0.25", default-features = false, features = ["png", "jpeg", "tiff"] }
kamadak-exif = "*"
serde = { version = "1", features = ["derive"] }
serde_json = "1"
strsim = "*"
dirs = "*"
log = "*"
anyhow = "1"
tokio = { version = "1", features = ["rt-multi-thread", "macros", "sync"] }
reqwest = { version = "0.12", default-features = false, features = ["json", "rustls-tls"] }
svg = "*"
