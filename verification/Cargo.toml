[package]
name = "face_topology"
version = "0.1.0"
edition = "2021"
publish = false

[dependencies]
bevy = { version = "=0.17.3", default-features = false, features = ["bevy_log"] }
noise = { version = "=0.9.0", default-features = false }
rand = "=0.8.8"
