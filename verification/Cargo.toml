[package]
name = "wlout"
version = "0.1.0"
edition = "2021"
publish = false

[dependencies]
wayland-client = "*"
wayland-protocols-wlr = { version = "*", features = ["client"] }
clap = "*"
tabwriter = "*"
