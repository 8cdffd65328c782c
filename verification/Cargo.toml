[package]
name = "sdl2_text"
version = "0.1.0"
edition = "2021"
publish = false

[dependencies]
sdl2 = "*"
freetype-rs = "*"
