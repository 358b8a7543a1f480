[package]
name = "openitb"
version = "0.1.0"
edition = "2021"
publish = false

[dependencies]
chrono = "0.4"
macroquad = "0.4"
egui-macroquad = "*"
ratatui = "*"
crossterm = "*"
lazy_static = "1"
