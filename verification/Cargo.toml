[package]
name = "kova"
version = "0.1.0"
edition = "2021"
publish = false

[dependencies]
unicode-width = "*"
log = "*"
simplelog = "*"
directories = "*"
libc = "*"
winit = "*"
freetype-rs = "*"
fontconfig = "*"
