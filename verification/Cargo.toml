[package]
name = "walk_assistant"
version = "0.1.0"
edition = "2021"
publish = false

[dependencies]
chrono = { version = "0.4", default-features = false, features = ["clock"] }
rlua = "0.19"
serialport = { version = "4", default-features = false }
