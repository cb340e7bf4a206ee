[package]
name = "sled_tables"
version = "0.1.0"
edition = "2021"
publish = false

[dependencies]
sled = "0.34"
bincode = "1.3"
serde = { version = "1", features = ["derive"] }
