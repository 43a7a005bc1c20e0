[package]
name = "surge"
version = "0.1.0"
edition = "2021"
publish = false

[dependencies]
ark-serialize = { version = "0.5", features = ["derive"] }
ark-std = "0.5"
rayon = "1"
tracing = "0.1"
