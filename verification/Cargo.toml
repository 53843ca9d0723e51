[package]
name = "berry"
version = "0.1.0"
edition = "2021"
publish = false

[dependencies]
cassowary = "=0.3.0"
sdl2 = { version = "=0.38.0", features = ["ttf"] }
