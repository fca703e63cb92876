[package]
name = "pvw_rrect_physics"
version = "0.1.0"
edition = "2021"
publish = false

[dependencies]
bevy_app = "0.17"
bevy_ecs = "0.17"
bevy_math = "0.17"
bevy_platform = "0.17"
bevy_reflect = "0.17"
bevy_time = "0.17"
bevy_transform = "0.17"
serde = { version = "1", features = ["derive"] }
