[package]
name = "makepad-platform"
version = "0.1.0"
edition = "2021"
publish = false

[dependencies]
makepad-zune-png = "0.4.10"
