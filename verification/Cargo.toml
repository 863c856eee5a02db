[package]
name = "fourad"
version = "0.1.0"
edition = "2021"
publish = false

[dependencies]
argh = "0.1"
once_cell = "1"
rand = "0.8"
thiserror = "1"
