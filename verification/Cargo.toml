[package]
name = "niri_switch"
version = "0.1.0"
edition = "2021"
publish = false

[dependencies]
async-channel = "2"
gdk4 = "0.9"
gio = "0.20"
glib = "0.20"
gtk4 = { version = "0.9", features = ["v4_12"] }
gtk4-layer-shell = "0.4"
niri-ipc = "*"
