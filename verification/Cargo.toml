[package]
name = "gestalt_ratio"
version = "0.2.0"
edition = "2021"
publish = false

[dependencies]
unicode-segmentation = "*"
