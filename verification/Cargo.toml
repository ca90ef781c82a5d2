[package]
name = "project_schedule"
version = "0.1.0"
edition = "2021"
publish = false

[dependencies]
time = { version = "0.3", features = ["serde-human-readable", "macros"] }
serde = { version = "1", features = ["derive"] }
serde_json = "1"
svg = "*"
chrono = "0.4"
