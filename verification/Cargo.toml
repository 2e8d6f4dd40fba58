[package]
name = "bevy_alchemy"
version = "0.1.0"
edition = "2021"
publish = false

[dependencies]
bevy_app = "*"
bevy_ecs = "*"
bevy_time = "*"
