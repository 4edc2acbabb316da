[package]
name = "calendar_duration"
version = "0.1.0"
edition = "2021"
publish = false

[dependencies]
time = { version = "*", features = ["parsing", "formatting"] }
