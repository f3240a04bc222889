[package]
name = "wayland_2_gnome"
version = "0.1.2"
edition = "2021"
publish = false

[dependencies]
anyhow = "=1.0.104"
log = "=0.4.35"
env_logger = "=0.11.11"
libc = "=0.2.191"
wayland-backend = "=0.3.17"
wayland-client = "=0.31.15"
wayland-server = "=0.31.14"
wayland-protocols-wlr = { version = "=0.3.12", features = ["client", "server"] }
