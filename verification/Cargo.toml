[package]
name = "glyph_encodings"
version = "0.1.0"
edition = "2021"
publish = false

[dependencies]
mfek-ipc = "=0.0.4-beta1"
