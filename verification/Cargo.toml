[package]
name = "halley"
version = "0.1.0"
edition = "2021"
publish = false

[dependencies]
xcursor = "*"
once_cell = "*"
rune-cfg = "*"
smithay = { version = "*", default-features = false, features = ["wayland_frontend"] }
