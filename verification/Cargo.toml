[package]
name = "iris"
version = "0.1.0"
edition = "2021"
publish = false

[dependencies]
dirs = "5"
glow = "0.13"
glutin = "0.31"
glutin-winit = "0.4"
nokhwa = { version = "=0.10.11", features = ["input-avfoundation"] }
parking_lot = "0.12"
png = "=0.17.16"
raw-window-handle = "0.5"
serde = { version = "1", features = ["derive"] }
serde_json = "1"
toml = "=0.8.23"
winit = { version = "0.29", features = ["rwh_05"] }
