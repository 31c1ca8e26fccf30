[package]
name = "seabed"
version = "0.1.0"
edition = "2021"
publish = false

[dependencies]
rand = "0.8"
tch = "0.13"
ggez = "0.5"
