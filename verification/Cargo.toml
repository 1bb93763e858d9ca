[package]
name = "bevy_convars"
version = "0.1.0"
edition = "2021"
publish = false

[dependencies]
toml_edit = { version = "0.22", features = ["serde"] }
serde = "1"
bevy_platform_support = "0.16.0-rc.1"
bevy_app = "0.16"
bevy_ecs = "0.16"
bevy_reflect = "0.16"
bevy_log = "0.16"
bevy_asset = "0.16"
