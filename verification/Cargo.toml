[package]
name = "gilt_and_iron"
version = "0.1.0"
edition = "2021"
publish = false

[dependencies]
bevy = { version = "=0.17.3", default-features = false, features = ["std", "bevy_window", "bevy_winit", "bevy_pbr", "bevy_gizmos", "bevy_mesh_picking_backend", "x11"] }
noise = "=0.9.0"
