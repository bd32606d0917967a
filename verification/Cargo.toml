[package]
name = "flocking"
version = "0.1.0"
edition = "2021"
publish = false

[dependencies]
bevy = { version = "=0.15.3", default-features = false, features = ["bevy_asset", "bevy_color", "bevy_core_pipeline", "bevy_render", "bevy_sprite", "bevy_window", "bevy_winit", "multi_threaded", "x11"] }
bevy_framepace = { version = "=0.18.1", default-features = false }
bevy_mod_imgui = "=0.6.0"
rand = "=0.8.8"
