[package]
name = "better_osu"
version = "0.1.0"
edition = "2021"
publish = false

[dependencies]
fps_counter = "*"
piston = "*"
piston_window = "*"
piston2d-graphics = "*"
rodio = "*"
