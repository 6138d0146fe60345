[package]
name = "zpu"
version = "0.1.0"
edition = "2021"
publish = false

[dependencies]
byteorder = "=1.5.0"
glium = "=0.23.0"
glium_text = "=0.14.0"
image = "=0.21.3"
time = "=0.1.45"
