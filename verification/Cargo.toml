[package]
name = "tabletop"
version = "0.1.0"
edition = "2021"
publish = false

[dependencies]
itertools = "0.14"
bevy = { version = "0.17", default-features = false, features = ["std", "bevy_asset", "bevy_color", "bevy_core_pipeline", "bevy_gizmos", "bevy_log", "bevy_mesh_picking_backend", "bevy_picking", "bevy_render", "bevy_sprite", "bevy_sprite_render", "bevy_state", "bevy_text", "bevy_ui", "bevy_window"] }
rand = "0.9"
serde = { version = "1", features = ["derive"] }
thiserror = "2"
toml = "0.9"
tracing = "0.1"

[dev-dependencies]
regex = "1"
