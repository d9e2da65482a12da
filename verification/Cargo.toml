[package]
name = "nautilus"
version = "0.1.0"
edition = "2021"
publish = false

[dependencies]
anyhow = "1"
clap = { version = "4", features = ["derive"] }
flate2 = "=1.1.10"
glam = "=0.21.3"
hecs = "=0.9.1"
hematite-nbt = "=0.5.2"
intmap = "=2.0.0"
log = "0.4"
pretty_env_logger = "0.4"
tokio = { version = "1", features = ["full"] }
winit = { version = "0.27", default-features = false, features = ["x11"] }
