[package]
name = "trainbot"
version = "0.1.0"
edition = "2021"
publish = false

[dependencies]
anyhow = "1"
bytes = "1"
camino = "1"
chrono = "0.4"
clap = { version = "4", features = ["derive", "env"] }
color_quant = "1"
crossbeam-channel = "0.5"
duct = "*"
gif = "*"
image = { version = "0.25", default-features = false, features = ["png", "jpeg", "gif"] }
metrics = "*"
metrics-exporter-prometheus = { version = "*", default-features = false }
mkv-element = "*"
nalgebra = "*"
rand = { version = "0.8", features = ["small_rng"] }
rayon = "1"
reqwest = { version = "0.12", default-features = false, features = ["blocking"] }
rusqlite = { version = "*", features = ["bundled"] }
scopeguard = "1"
serde = { version = "1", features = ["derive"] }
serde_json = "1"
serde-this-or-that = "*"
thiserror = "2"
tracing = "0.1"
tracing-subscriber = { version = "0.3", features = ["env-filter", "json"] }
v4l = "*"
