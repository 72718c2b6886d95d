[package]
name = "mindcache"
version = "0.1.0"
edition = "2021"
publish = false

[dependencies]
chrono = "=0.4.45"
comrak = { version = "=0.59.0", default-features = false }
