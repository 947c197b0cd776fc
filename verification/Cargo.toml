[package]
name = "keychord"
version = "0.1.0"
edition = "2021"
publish = false

[dependencies]
sdl2 = { version = "*", features = ["ttf"] }
mlua = { version = "*", features = ["lua54", "vendored"] }
fontconfig = "*"
