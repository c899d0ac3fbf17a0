[package]
name = "rrpg"
version = "0.1.0"
edition = "2021"
publish = false

[dependencies]
lewton = "=0.10.2"
rubato = "=0.14.1"
dasp_sample = "=0.11.0"
cpal = "=0.18.2"
ron = "=0.12.2"
serde = { version = "=1.0.229", features = ["derive"] }
