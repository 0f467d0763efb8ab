[package]
name = "niri_dock"
version = "0.1.0"
edition = "2021"
publish = false

[dependencies]
niri-ipc = "*"
tokio = { version = "1", features = ["rt", "net", "io-util", "sync"] }
serde = { version = "1", features = ["derive"] }
serde_jsonrc = "*"
calloop = "*"
log = "0.4"
resvg = "*"
image = { version = "*", default-features = false, features = ["png", "jpeg"] }
freedesktop-icons = "*"
cosmic-text = "*"
cairo-rs = "*"
knus = "*"
schemars = "*"
