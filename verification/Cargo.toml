[package]
name = "plotgrid"
version = "0.1.0"
edition = "2021"
publish = false

[dependencies]
eyre = "0.6"
hdrhistogram = { version = "7", default-features = false }
lexopt = "0.3"
