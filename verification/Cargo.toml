[package]
name = "ascetic_vis"
version = "0.1.0"
edition = "2021"
publish = false

[dependencies]
kurbo = "=0.8.3"
piet = "=0.5.0"
usvg = { version = "0.14", default-features = false }
resvg = { version = "0.14", default-features = false }
tiny-skia = "0.5"
