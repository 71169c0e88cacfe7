[package]
name = "gpx_heatmap"
version = "0.1.0"
edition = "2021"
publish = false

[dependencies]
bevy = { version = "0.7", default-features = false, features = ["render", "bevy_winit", "png", "x11"] }
bevy_polyline = "0.2"
glam = "0.20"
gpx = "0.8"
image = { version = "0.24", default-features = false, features = ["png"] }
reqwest = { version = "0.11", default-features = false, features = ["blocking", "rustls-tls"] }
