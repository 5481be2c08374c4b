[package]
name = "render_device"
version = "0.1.0"
edition = "2021"
publish = false

[dependencies]
wgpu = { version = "27", default-features = false, features = ["std", "noop", "wgsl", "spirv"] }
bevy_ecs = { version = "0.18", default-features = false, features = ["std"] }
