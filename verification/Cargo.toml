[package]
name = "software_renderer"
version = "0.1.0"
edition = "2021"
publish = false

[dependencies]
minifb = "*"
serde = { version = "1", features = ["derive"] }
serde_json = "1"
