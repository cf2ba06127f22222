[package]
name = "svincraft"
version = "0.1.0"
edition = "2021"
publish = false

[dependencies]
glam = "=0.27.0"
interpolation = "=0.3.0"
itertools = "=0.12.1"
polyanya = "=0.6.2"
rand = "=0.8.8"
