[package]
name = "app_launcher"
version = "0.1.0"
edition = "2021"
publish = false

[dependencies]
dirs = "*"
rayon = "1"
xdg = "2"
