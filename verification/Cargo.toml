[package]
name = "rehome_core"
version = "0.1.0"
edition = "2021"
publish = false

[dependencies]
sha2 = "=0.10.9"
unicode-normalization = "=0.1.26"
uuid = { version = "=1.29.0", features = ["v4", "v5", "serde"] }
serde = { version = "=1.0.229", features = ["derive"] }
serde_json = "=1.0.154"
walkdir = "=2.5.0"
tempfile = "=3.27.0"
libc = "=0.2.191"
chrono = "=0.4.45"
rusqlite = { version = "0.32", features = ["bundled"] }
windows-sys = { version = "0.61", features = ["Win32_Storage_FileSystem"] }
