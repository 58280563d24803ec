[package]
name = "newton_fractal"
version = "0.1.0"
edition = "2021"
publish = false

[dependencies]
hex = "0.4"
clap = "*"
libloading = "*"
num-complex = "*"
png = "*"
rayon = "*"
