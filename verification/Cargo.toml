[package]
name = "chess_vision"
version = "0.1.0"
edition = "2021"
publish = false

[dependencies]
rand = "0.8"
clap = "2"
text_io = "0.1"
pleco = "0.5"
