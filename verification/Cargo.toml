[package]
name = "timer_schedule"
version = "0.1.0"
edition = "2021"
publish = false

[dependencies]
bitmaps = "2.1.0"
chrono = "0.4"
serde = { version = "1", features = ["derive"] }
serde_json = "1"
typenum = "1"
