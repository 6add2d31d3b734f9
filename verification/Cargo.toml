[package]
name = "sigil_siege"
version = "0.1.0"
edition = "2021"
publish = false

[dependencies]
rand = "0.8"
bevy = { version = "0.10", default-features = false, features = ["bevy_asset", "bevy_core_pipeline", "bevy_gltf", "bevy_pbr", "bevy_render", "bevy_winit", "png", "x11"] }
bevy_mod_picking = "0.12"
bevy_tweening = "0.7"
