[package]
name = "goodomen"
version = "0.1.0"
edition = "2021"
publish = false

[dependencies]
mlua = { version = "0.10", features = ["lua51", "vendored"] }
glow = "*"
sdl2 = "*"
