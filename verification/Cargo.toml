[package]
name = "multi_mono_font"
version = "0.1.0"
edition = "2021"

[dependencies]
embedded-graphics = "*"
