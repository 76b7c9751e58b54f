[package]
name = "delta"
version = "0.1.0"
edition = "2021"
publish = false

[dependencies]
chrono = "0.4"
twox-hash = "2"
humansize = "2"
serde = { version = "1", features = ["derive"] }
serde_json = "1"
rusqlite = { version = "*", features = ["bundled"] }
walkdir = "2"
sysinfo = "*"
