[package]
name = "embeprom"
version = "0.1.0"
edition = "2021"
publish = false

[dependencies]
critical-section = { version = "1", features = ["std"] }
heapless = "0.8"
portable-atomic = { version = "1", features = ["float"] }
