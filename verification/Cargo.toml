[package]
name = "chip8vm"
version = "0.1.0"
edition = "2021"
publish = false

[dependencies]
rand = "=0.8.8"
colored = "=2.2.0"
sdl2 = "=0.37.0"

[dev-dependencies]
regex = "=1.13.1"
