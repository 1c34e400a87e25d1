[package]
name = "ecosim"
version = "0.1.0"
edition = "2021"
publish = false

[dependencies]
rand = "0.8"
bevy = { version = "0.16", default-features = false, features = ["std", "async_executor", "bevy_asset", "bevy_core_pipeline", "bevy_render", "bevy_sprite", "bevy_state", "bevy_window", "bevy_winit", "png", "x11"] }
