[package]
name = "pastoral"
version = "0.1.0"
edition = "2021"
publish = false

[dependencies]
bevy = { version = "=0.15.3", default-features = false, features = ["bevy_sprite", "bevy_ui", "bevy_text", "bevy_core_pipeline", "bevy_render", "bevy_asset", "bevy_window", "png"] }
serde = { version = "1", features = ["derive"] }
serde_json = "1"
