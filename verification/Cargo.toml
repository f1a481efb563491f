[package]
name = "sketchbook"
version = "0.1.0"
edition = "2021"
publish = false

[dependencies]
nannou = "=0.11.1"
rand = "=0.7.3"
