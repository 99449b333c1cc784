[package]
name = "event_tracker"
version = "0.1.0"
edition = "2021"
publish = false

[dependencies]
rdev = "0.5"
eframe = { version = "0.36", default-features = false, features = ["glow", "x11"] }

[dev-dependencies]
csv = "1"
