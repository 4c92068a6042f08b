[package]
name = "whep_signaling"
version = "0.1.0"
edition = "2021"
publish = false

[dependencies]
actix-web = { version = "4", default-features = false }
anyhow = "1"
chrono = { version = "0.4", default-features = false, features = ["clock"] }
rand = "0.8"
tracing = "0.1"
