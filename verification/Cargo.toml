[package]
name = "raster_wkb"
version = "0.1.0"
edition = "2021"
publish = false

[dependencies]
postgres = "*"
wkb-raster = "*"
