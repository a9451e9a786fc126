[package]
name = "bevy_debug_text_overlay"
version = "0.1.0"
edition = "2021"
publish = false

[dependencies]
bevy = { version = "0.13", default-features = false }
lazy_static = "1.4"
