[package]
name = "scan_engine"
version = "0.1.0"
edition = "2021"
publish = false

[dependencies]
blake3 = "*"
chrono = { version = "*", features = ["serde"] }
dirs = "*"
hex = "*"
image = { version = "0.25", default-features = false, features = ["jpeg", "png", "gif", "webp", "tiff"] }
image_hasher = "*"
jwalk = "*"
kamadak-exif = "*"
memmap2 = "*"
parking_lot = "*"
rayon = "*"
rusqlite = { version = "*", features = ["bundled"] }
serde = { version = "*", features = ["derive"] }
serde_json = "*"
sha2 = "*"
thiserror = "*"
trash = "*"
uuid = { version = "*", features = ["v4"] }
