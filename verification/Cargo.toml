[package]
name = "spritesheet_animation"
version = "0.1.0"
edition = "2021"
publish = false

[dependencies]
uuid = { version = "1", features = ["v4"] }
serde = { version = "1", features = ["derive"] }
bevy = { version = "0.16", default-features = false, features = ["bevy_asset"] }
