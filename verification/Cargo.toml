[package]
name = "gerber_core"
version = "0.1.0"
edition = "2021"
publish = false

[dependencies]
i_overlay = "=9.0.0"
i_triangle = "=0.49.0"
