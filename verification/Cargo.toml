[package]
name = "bevy_ecs_tiled"
version = "0.9.0"
edition = "2021"
publish = false

[dependencies]
serde = { version = "1", features = ["derive"] }
serde_json = "1"
tiled = { version = "0.14", default-features = false }
