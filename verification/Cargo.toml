[package]
name = "rustrl"
version = "0.1.0"
edition = "2021"
publish = false

[dependencies]
rltk = { version = "=0.8.7", default-features = false, features = ["crossterm"] }
specs = "=0.20.0"
specs-derive = "=0.4.1"
