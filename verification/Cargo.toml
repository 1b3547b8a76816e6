[package]
name = "bmp"
version = "0.1.0"
edition = "2021"
publish = false

[dependencies]
byteorder = "1"
thiserror = "2"
rayon = "1"
