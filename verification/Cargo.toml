[package]
name = "pathtrace"
version = "0.1.0"
edition = "2021"
publish = false

[dependencies]
order-stat = "0.1"
rand = "0.8"
rayon = "1"
lodepng = "3"
lazy_static = "1"
num = "0.4"
