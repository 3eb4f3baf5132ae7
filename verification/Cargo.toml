[package]
name = "linestrip"
version = "0.1.0"
edition = "2021"
publish = false

[dependencies]
clap = { version = "4", features = ["derive"] }
color-eyre = "0.6"
eyre = "0.6"
futures = "0.3"
image = { version = "0.25", default-features = false, features = ["png", "webp"] }
nalgebra = "*"
serde = { version = "1", features = ["derive"] }
serde_json = "1"
toml = "*"
tracing = "0.1"
tracing-subscriber = "0.3"
wgpu = { version = "25", default-features = false, features = ["wgsl", "metal", "dx12"] }
