[package]
name = "h7cad"
version = "0.1.0"
edition = "2021"
publish = false

[dependencies]
acadrust = "0.6.8"
glam = "0.34.2"
iced = { version = "0.14.0", default-features = false, features = ["advanced", "wgpu"] }
inventory = "0.3.25"
truck-modeling = "0.6.0"
windows-sys = "0.61.2"
