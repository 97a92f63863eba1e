[package]
name = "raster_font"
version = "0.1.0"
edition = "2021"
publish = false

[dependencies]
aho-corasick = "=1.1.5"
serde = { version = "=1.0.229", features = ["derive"] }
toml = "=1.1.8"
bevy_math = { version = "=0.18.1", default-features = false, features = ["std"] }
bevy_app = "=0.18.1"
bevy_asset = "=0.18.1"
bevy_ecs = "=0.18.1"
bevy_image = "=0.18.1"
bevy_log = "=0.18.1"
bevy_color = "=0.18.1"
bevy_reflect = "=0.18.1"
bevy_platform = "=0.18.1"
