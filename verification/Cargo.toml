[package]
name = "femtorand"
version = "1.0.2"
edition = "2021"
publish = false

[dependencies]
getrandom = "0.3"
