[package]
name = "vivarium"
version = "0.1.0"
edition = "2021"
publish = false

[dependencies]
pathfinding = "=4.16.0"
rand = "=0.9.5"
bevy = { version = "=0.17.3", default-features = false, features = ["std", "bevy_asset", "bevy_color", "bevy_core_pipeline", "bevy_pbr", "bevy_render", "bevy_mesh", "bevy_camera", "bevy_light", "bevy_shader", "bevy_image", "bevy_text", "bevy_ui", "bevy_window", "default_font"] }
