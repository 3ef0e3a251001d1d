[package]
name = "variables"
version = "0.1.0"
edition = "2021"
publish = false

[dependencies]
bevy = { version = "0.8", default-features = false, features = ["bevy_asset", "bevy_winit", "render", "x11"] }
bevy_egui = { version = "0.16", default-features = false }
bevy_prototype_lyon = { version = "0.6" }
bevy_turborand = { version = "0.3" }
