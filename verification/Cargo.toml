[package]
name = "saddle_ai_state_machine"
version = "0.1.0"
edition = "2021"
publish = false

[dependencies]
bevy = { version = "0.17", default-features = false, features = ["std", "bevy_asset", "bevy_gizmos", "bevy_color", "bevy_log"] }
serde = { version = "1", features = ["derive"] }
ron = "*"

[dev-dependencies]
serde_json = "1"
