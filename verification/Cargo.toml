[package]
name = "physics_rendering_engine"
version = "0.1.0"
edition = "2021"
publish = false

[dependencies]
glam = "=0.34.2"
serde = { version = "=1.0.229", features = ["derive"] }
serde_json = "=1.0.154"
rapier3d = "=0.36.1"
log = "=0.4.35"
anyhow = "=1.0.104"
env_logger = "=0.11.11"
winit = "0.30"
rodio = "0.20"
