[package]
name = "monotone_paths"
version = "0.1.0"
edition = "2021"
publish = false

[dependencies]
kurbo = "0.6"
lyon_geom = "0.15"
