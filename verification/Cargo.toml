[package]
name = "iyon_tui"
version = "0.1.0"
edition = "2021"
publish = false

[dependencies]
unicode-segmentation = "1"
unicode-width = "0.2"
unicode-linebreak = "0.1"
textwrap = "0.16"
