[package]
name = "ray_ten"
version = "0.1.0"
edition = "2021"
publish = false

[dependencies]
lazy_static = "1"
macroquad = "0.3"
num = "0.4"
rand = "0.8"
rayon = "1"
