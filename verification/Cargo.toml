[package]
name = "roostbar"
version = "0.1.0"
edition = "2021"
publish = false

[dependencies]
ab_glyph = "=0.2.32"
alsa = "=0.9.1"
calloop = "=0.14.5"
calloop-wayland-source = "=0.4.1"
chrono = "=0.4.45"
pipewire = "=0.8.0"
serde = { version = "=1.0.229", features = ["derive"] }
serde_json = "=1.0.154"
smithay-client-toolkit = { version = "=0.21.1", default-features = false, features = ["calloop"] }
toml = "1"
wayland-client = "=0.31.15"
zbus = "=5.19.0"
