[package]
name = "roguelike"
version = "0.1.0"
edition = "2021"
publish = false

[dependencies]
uuid = { version = "=1.29.0", features = ["v4"] }
noise = "=0.9.0"
rand = "=0.10.3"
ggez = { version = "=0.10.0", default-features = false }
lazy_static = "=1.5.1"
mopa = "=0.2.2"
