[package]
name = "spectral_editor"
version = "0.1.0"
edition = "2021"
publish = false

[dependencies]
open = "3.2.0"
