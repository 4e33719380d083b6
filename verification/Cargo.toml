[package]
name = "collage"
version = "0.1.0"
edition = "2021"
publish = false

[dependencies]
image = "=0.23.14"
imageproc = "=0.22.0"
rusttype = "=0.9.3"
ttf-parser = "=0.15.2"
