[package]
name = "object_database"
version = "0.1.0"
edition = "2021"
publish = false

[dependencies]
ring = "*"
chrono = { version = "0.4", default-features = false, features = ["std", "clock"] }
anyhow = "1"
walkdir = "2"
