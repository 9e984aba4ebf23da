[package]
name = "maverick"
version = "0.1.0"
edition = "2021"
publish = false

[dependencies]
x11rb = { version = "0.13", features = ["randr", "shape", "xkb", "composite", "damage", "xfixes"] }
libc = "0.2"
log = "0.4"
