[package]
name = "voxel_world"
version = "0.1.0"
edition = "2021"
publish = false

[dependencies]
bevy = { version = "=0.17.3", default-features = false, features = ["std", "async_executor", "multi_threaded", "bevy_asset", "bevy_color", "bevy_core_pipeline", "bevy_render", "bevy_pbr", "bevy_mesh", "bevy_camera", "bevy_light", "bevy_image", "bevy_shader", "bevy_log", "bevy_window", "bevy_winit", "x11"] }
futures-lite = "=2.6.1"
noise = "=0.9.0"
wgpu-types = "=26.0.0"
