[package]
name = "sloth"
version = "0.1.0"
edition = "2021"
publish = false

[dependencies]
arboard = "3"
eframe = "0.19"
image = "0.24"
