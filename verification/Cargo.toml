[package]
name = "meshlets"
version = "0.1.0"
edition = "2021"
publish = false

[dependencies]
meshopt = "*"
tobj = "*"
