[package]
name = "moto_core"
version = "0.1.0"
edition = "2021"
publish = false

[dependencies]
crc32fast = "1"
flate2 = "1"
zip = { version = "2", default-features = false, features = ["deflate"] }
tar = { version = "0.4", default-features = false }
rusqlite = { version = "0.32", features = ["bundled"] }
memmap2 = "0.9"
serde = { version = "1", features = ["derive"] }
serde_json = "1"
thiserror = "2"
